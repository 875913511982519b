//! What holds of a log over many calls.

use vstd::prelude::*;

use crate::catalog;
use crate::error::ErrorView;
use crate::event::{EventDraftView, EventPayloadView, EventView};
use crate::ids;
use crate::instant::Instant;
use crate::log;
use crate::log::{
    AppendHook, NamedPlan, ObservationAppendView, Observed, Plan, ProjectLog, SnapshotView,
};
use crate::log_laws;
use crate::observation::ObservationKeyView;
use crate::project::StateView;
use crate::rules;
use crate::store;
use crate::store::{AppendResultView, HeadView, MemoryStore, Store};

verus! {

// ---- the hook ----

/// What a store answers to an append.
pub type Answer = core::result::Result<AppendResultView, ErrorView>;

/// How many of the answers confirm an append.
pub open spec fn confirmed(answers: Seq<Answer>) -> nat
    decreases answers.len(),
{
    if answers.len() == 0 {
        0
    } else {
        confirmed(answers.drop_last()) + if answers.last() is Ok {
            1nat
        } else {
            0nat
        }
    }
}

/// Whether a hook comes to be `after` by being told so many times.
pub open spec fn told<H: AppendHook>(before: H, after: H, times: nat) -> bool
    decreases times,
{
    if times == 0 {
        after == before
    } else {
        exists|between: H|
            told(before, between, (times - 1) as nat) && #[trigger] between.heard(after)
    }
}

/// Whether the log goes from one to the other by one append that the store answers so.
pub open spec fn asked_once<S: Store, H: AppendHook>(
    before: ProjectLog<S, H>,
    after: ProjectLog<S, H>,
    answer: Answer,
) -> bool {
    exists|head: HeadView, draft: EventDraftView, outcome: Answer| #[trigger]
        before.answers(after, head, draft, answer, outcome)
}

/// Whether the log goes from one to the other by appends that the store answers so,
/// one after the other.
pub open spec fn asked<S: Store, H: AppendHook>(
    before: ProjectLog<S, H>,
    after: ProjectLog<S, H>,
    answers: Seq<Answer>,
) -> bool
    decreases answers.len(),
{
    if answers.len() == 0 {
        after == before
    } else {
        exists|between: ProjectLog<S, H>|
            asked(before, between, answers.drop_last()) && #[trigger] asked_once(
                between,
                after,
                answers.last(),
            )
    }
}

/// Whether an observation came to an append.
pub open spec fn was_news(outcome: Observed) -> bool {
    outcome matches Ok(ObservationAppendView::Appended(_))
}

/// What one call may make of the log, whichever statement it makes, and whether the
/// caller is told that it was appended.
pub open spec fn called<S: Store, H: AppendHook>(
    before: ProjectLog<S, H>,
    after: ProjectLog<S, H>,
    appended: bool,
) -> bool {
    ||| exists|snapshot: SnapshotView, draft: EventDraftView, outcome: Answer| #[trigger]
        before.appends(after, snapshot, draft, outcome) && appended == (outcome is Ok)
    ||| exists|snapshot: SnapshotView, payload: EventPayloadView, outcome: Answer| #[trigger]
        before.states(after, snapshot, payload, outcome) && appended == (outcome is Ok)
    ||| exists|plan: spec_fn(SnapshotView) -> Plan, outcome: Answer| #[trigger]
        before.says(after, plan, outcome) && appended == (outcome is Ok)
    ||| exists|
        plan: spec_fn(SnapshotView) -> NamedPlan,
        outcome: core::result::Result<(AppendResultView, Seq<char>), ErrorView>,
    | #[trigger]
        before.says_of_new(after, plan, outcome) && appended == (outcome is Ok)
    ||| exists|key: ObservationKeyView, level: Option<Seq<char>>, outcome: Observed| #[trigger]
        before.observes(after, key, level, outcome) && appended == was_news(outcome)
}

/// A row of calls: the log before each and after the last, and of which calls the
/// caller is told that they appended.
pub open spec fn row_of_calls<S: Store, H: AppendHook>(
    logs: Seq<ProjectLog<S, H>>,
    appended: Seq<bool>,
) -> bool {
    &&& logs.len() == appended.len() + 1
    &&& forall|i: int|
        0 <= i < appended.len() ==> #[trigger] called(logs[i], logs[i + 1], appended[i])
}

/// How many of the calls appended.
pub open spec fn appends_among(appended: Seq<bool>) -> nat
    decreases appended.len(),
{
    if appended.len() == 0 {
        0
    } else {
        appends_among(appended.drop_last()) + if appended.last() {
            1nat
        } else {
            0nat
        }
    }
}

/// Whether some answers of the store take the log from one to the other, so many of
/// them confirming an append.
pub open spec fn asked_with<S: Store, H: AppendHook>(
    before: ProjectLog<S, H>,
    after: ProjectLog<S, H>,
    times: nat,
) -> bool {
    exists|answers: Seq<Answer>| #[trigger]
        asked(before, after, answers) && confirmed(answers) == times
}

proof fn asking_nothing<S: Store, H: AppendHook>(log: ProjectLog<S, H>)
    ensures
        asked_with(log, log, 0),
{
    assert(asked(log, log, Seq::<Answer>::empty()));
}

proof fn asking_more<S: Store, H: AppendHook>(
    before: ProjectLog<S, H>,
    between: ProjectLog<S, H>,
    after: ProjectLog<S, H>,
    answers: Seq<Answer>,
    answer: Answer,
)
    requires
        asked(before, between, answers),
        asked_once(between, after, answer),
    ensures
        asked(before, after, answers.push(answer)),
        confirmed(answers.push(answer)) == confirmed(answers) + if answer is Ok {
            1nat
        } else {
            0nat
        },
{
    let all = answers.push(answer);
    assert(all.drop_last() =~= answers);
    assert(all.last() == answer);
    assert(asked(before, between, all.drop_last()));
}

proof fn asking_on<S: Store, H: AppendHook>(
    before: ProjectLog<S, H>,
    between: ProjectLog<S, H>,
    after: ProjectLog<S, H>,
    first: Seq<Answer>,
    second: Seq<Answer>,
)
    requires
        asked(before, between, first),
        asked(between, after, second),
    ensures
        asked(before, after, first + second),
        confirmed(first + second) == confirmed(first) + confirmed(second),
    decreases second.len(),
{
    if second.len() == 0 {
        assert(first + second =~= first);
    } else {
        let front = second.drop_last();
        let middle = choose|middle: ProjectLog<S, H>|
            asked(between, middle, front) && #[trigger] asked_once(middle, after, second.last());
        asking_on(before, between, middle, first, front);
        asking_more(before, middle, after, first + front, second.last());
        assert((first + front).push(second.last()) =~= first + second);
    }
}

proof fn asking_with_more<S: Store, H: AppendHook>(
    before: ProjectLog<S, H>,
    between: ProjectLog<S, H>,
    after: ProjectLog<S, H>,
    first: nat,
    second: nat,
)
    requires
        asked_with(before, between, first),
        asked_with(between, after, second),
    ensures
        asked_with(before, after, first + second),
{
    let a = choose|a: Seq<Answer>| #[trigger]
        asked(before, between, a) && confirmed(a) == first;
    let b = choose|b: Seq<Answer>| #[trigger]
        asked(between, after, b) && confirmed(b) == second;
    asking_on(before, between, after, a, b);
}

spec fn once_if(appended: bool) -> nat {
    if appended {
        1
    } else {
        0
    }
}

proof fn appends_ask_once<S: Store, H: AppendHook>(
    before: ProjectLog<S, H>,
    after: ProjectLog<S, H>,
    snapshot: SnapshotView,
    draft: EventDraftView,
    outcome: Answer,
)
    requires
        before.appends(after, snapshot, draft, outcome),
    ensures
        asked_with(before, after, once_if(outcome is Ok)),
{
    asking_nothing(before);
    if log::refusal(before.prefix@, snapshot, draft) is None {
        let answer = choose|answer: Answer| #[trigger]
            before.answers(after, snapshot.head, draft, answer, outcome);
        assert(asked_once(before, after, answer));
        assert(asked(before, before, Seq::<Answer>::empty()));
        asking_more(before, before, after, Seq::empty(), answer);
    }
}

proof fn statements_ask_once<S: Store, H: AppendHook>(
    before: ProjectLog<S, H>,
    after: ProjectLog<S, H>,
    snapshot: SnapshotView,
    payload: EventPayloadView,
    outcome: Answer,
)
    requires
        before.states(after, snapshot, payload, outcome),
    ensures
        asked_with(before, after, once_if(outcome is Ok)),
{
    let (id, at) = choose|id: Seq<char>, at: Instant|
        ids::ulid_shaped(id) && #[trigger] before.appends(
            after,
            snapshot,
            log::draft_of(id, at, before.actor@, payload),
            outcome,
        );
    appends_ask_once(
        before,
        after,
        snapshot,
        log::draft_of(id, at, before.actor@, payload),
        outcome,
    );
}

/// How a round of an observation ends, by what the store answered.
spec fn round_ends<S: Store, H: AppendHook>(
    middle: ProjectLog<S, H>,
    after: ProjectLog<S, H>,
    key: ObservationKeyView,
    level: Option<Seq<char>>,
    rounds: nat,
    answer: Answer,
    outcome: Observed,
) -> bool {
    match answer {
        Ok(result) => after == middle && outcome == Ok::<ObservationAppendView, ErrorView>(
            ObservationAppendView::Appended(result),
        ),
        Err(error) => if error.code == "head_conflict"@ {
            middle.settles(after, key, level, (rounds - 1) as nat, outcome)
        } else {
            after == middle && outcome == Err::<ObservationAppendView, ErrorView>(error)
        },
    }
}

/// How an observation that is news settles from one round on.
spec fn settled_by<S: Store, H: AppendHook>(
    before: ProjectLog<S, H>,
    after: ProjectLog<S, H>,
    snapshot: SnapshotView,
    payload: EventPayloadView,
    key: ObservationKeyView,
    level: Option<Seq<char>>,
    rounds: nat,
    outcome: Observed,
) -> bool {
    exists|middle: ProjectLog<S, H>, answer: Answer| #[trigger]
        before.states(middle, snapshot, payload, answer) && round_ends(
            middle,
            after,
            key,
            level,
            rounds,
            answer,
            outcome,
        )
}

/// How a round of an observation goes, by what the snapshot shows.
spec fn round_begins<S: Store, H: AppendHook>(
    before: ProjectLog<S, H>,
    after: ProjectLog<S, H>,
    snapshot: core::result::Result<SnapshotView, ErrorView>,
    key: ObservationKeyView,
    level: Option<Seq<char>>,
    rounds: nat,
    outcome: Observed,
) -> bool {
    match snapshot {
        Err(error) => after == before && outcome == Err::<ObservationAppendView, ErrorView>(error),
        Ok(s) => match log::newness(s.state, key, level) {
            None => after == before && outcome == Ok::<ObservationAppendView, ErrorView>(
                ObservationAppendView::Unchanged { head: s.head },
            ),
            Some(payload) => settled_by(
                before,
                after,
                s,
                EventPayloadView::Observation(payload),
                key,
                level,
                rounds,
                outcome,
            ),
        },
    }
}

proof fn observations_append_once<S: Store, H: AppendHook>(
    before: ProjectLog<S, H>,
    after: ProjectLog<S, H>,
    key: ObservationKeyView,
    level: Option<Seq<char>>,
    rounds: nat,
    outcome: Observed,
)
    requires
        before.settles(after, key, level, rounds, outcome),
    ensures
        asked_with(before, after, once_if(was_news(outcome))),
    decreases rounds,
{
    asking_nothing(before);
    if rounds > 0 {
        let snapshot = choose|snapshot: core::result::Result<SnapshotView, ErrorView>| #[trigger]
            before.snapshots(snapshot) && round_begins(
                before,
                after,
                snapshot,
                key,
                level,
                rounds,
                outcome,
            );
        if let Ok(s) = snapshot {
            if let Some(payload) = log::newness(s.state, key, level) {
                let told_payload = EventPayloadView::Observation(payload);
                let (middle, answer) = choose|middle: ProjectLog<S, H>, answer: Answer| #[trigger]
                    before.states(middle, s, told_payload, answer) && round_ends(
                        middle,
                        after,
                        key,
                        level,
                        rounds,
                        answer,
                        outcome,
                    );
                statements_ask_once(before, middle, s, told_payload, answer);
                if answer is Err && answer->Err_0.code == "head_conflict"@ {
                    observations_append_once(
                        middle,
                        after,
                        key,
                        level,
                        (rounds - 1) as nat,
                        outcome,
                    );
                    asking_with_more(before, middle, after, 0, once_if(was_news(outcome)));
                }
            }
        }
    }
}

/// A call asks the store for one confirmed append where its caller is told of one,
/// and for none where not.
proof fn calls_append_what_they_tell<S: Store, H: AppendHook>(
    before: ProjectLog<S, H>,
    after: ProjectLog<S, H>,
    appended: bool,
)
    requires
        called(before, after, appended),
    ensures
        asked_with(before, after, once_if(appended)),
{
    asking_nothing(before);
    if exists|snapshot: SnapshotView, draft: EventDraftView, outcome: Answer| #[trigger]
        before.appends(after, snapshot, draft, outcome) && appended == (outcome is Ok) {
        let (snapshot, draft, outcome) = choose|
            snapshot: SnapshotView,
            draft: EventDraftView,
            outcome: Answer,
        | #[trigger]
            before.appends(after, snapshot, draft, outcome) && appended == (outcome is Ok);
        appends_ask_once(before, after, snapshot, draft, outcome);
    } else if exists|snapshot: SnapshotView, payload: EventPayloadView, outcome: Answer| #[trigger]
        before.states(after, snapshot, payload, outcome) && appended == (outcome is Ok) {
        let (snapshot, payload, outcome) = choose|
            snapshot: SnapshotView,
            payload: EventPayloadView,
            outcome: Answer,
        | #[trigger]
            before.states(after, snapshot, payload, outcome) && appended == (outcome is Ok);
        statements_ask_once(before, after, snapshot, payload, outcome);
    } else if exists|plan: spec_fn(SnapshotView) -> Plan, outcome: Answer| #[trigger]
        before.says(after, plan, outcome) && appended == (outcome is Ok) {
        let (plan, outcome) = choose|plan: spec_fn(SnapshotView) -> Plan, outcome: Answer| #[trigger]
            before.says(after, plan, outcome) && appended == (outcome is Ok);
        let snapshot = choose|snapshot: core::result::Result<SnapshotView, ErrorView>| #[trigger]
            before.snapshots(snapshot) && match snapshot {
                Err(error) => outcome == Err::<AppendResultView, ErrorView>(error) && after
                    == before,
                Ok(s) => match plan(s) {
                    Err(error) => outcome == Err::<AppendResultView, ErrorView>(error) && after
                        == before,
                    Ok(payload) => before.states(after, s, payload, outcome),
                },
            };
        if let Ok(s) = snapshot {
            if let Ok(payload) = plan(s) {
                statements_ask_once(before, after, s, payload, outcome);
            }
        }
    } else if exists|
        plan: spec_fn(SnapshotView) -> NamedPlan,
        outcome: core::result::Result<(AppendResultView, Seq<char>), ErrorView>,
    | #[trigger]
        before.says_of_new(after, plan, outcome) && appended == (outcome is Ok) {
        let (plan, outcome) = choose|
            plan: spec_fn(SnapshotView) -> NamedPlan,
            outcome: core::result::Result<(AppendResultView, Seq<char>), ErrorView>,
        | #[trigger]
            before.says_of_new(after, plan, outcome) && appended == (outcome is Ok);
        let snapshot = choose|snapshot: core::result::Result<SnapshotView, ErrorView>| #[trigger]
            before.snapshots(snapshot) && match snapshot {
                Err(error) => outcome == Err::<(AppendResultView, Seq<char>), ErrorView>(error)
                    && after == before,
                Ok(s) => match plan(s) {
                    Err(error) => outcome == Err::<(AppendResultView, Seq<char>), ErrorView>(error)
                        && after == before,
                    Ok((payload, id)) => match outcome {
                        Ok((result, told_id)) => told_id == id && before.states(
                            after,
                            s,
                            payload,
                            Ok(result),
                        ),
                        Err(error) => before.states(after, s, payload, Err(error)),
                    },
                },
            };
        if let Ok(s) = snapshot {
            if let Ok((payload, id)) = plan(s) {
                match outcome {
                    Ok((result, told_id)) => {
                        statements_ask_once(before, after, s, payload, Ok(result));
                    },
                    Err(error) => {
                        statements_ask_once(before, after, s, payload, Err(error));
                    },
                }
            }
        }
    } else {
        let (key, level, outcome) = choose|
            key: ObservationKeyView,
            level: Option<Seq<char>>,
            outcome: Observed,
        | #[trigger]
            before.observes(after, key, level, outcome) && appended == was_news(outcome);
        if log::observation_error(key, level) is None {
            observations_append_once(
                before,
                after,
                key,
                level,
                log::OBSERVATION_APPEND_ATTEMPTS as nat,
                outcome,
            );
        }
    }
}

/// The hook hears of each append that the store confirms, once, and of nothing else;
/// the log keeps its prefix and its actor.
proof fn answers_are_heard_once<S: Store, H: AppendHook>(
    before: ProjectLog<S, H>,
    after: ProjectLog<S, H>,
    answers: Seq<Answer>,
)
    requires
        asked(before, after, answers),
    ensures
        told(before.on_append, after.on_append, confirmed(answers)),
        after.prefix == before.prefix,
        after.actor == before.actor,
    decreases answers.len(),
{
    if answers.len() > 0 {
        let front = answers.drop_last();
        let between = choose|between: ProjectLog<S, H>|
            asked(before, between, front) && #[trigger] asked_once(between, after, answers.last());
        answers_are_heard_once(before, between, front);
        let (head, draft, outcome) = choose|
            head: HeadView,
            draft: EventDraftView,
            outcome: Answer,
        | #[trigger]
            between.answers(after, head, draft, answers.last(), outcome);
        if answers.last() is Ok {
            assert(told(before.on_append, between.on_append, confirmed(front)));
            assert((confirmed(answers) - 1) as nat == confirmed(front));
        }
    }
}

/// Over any row of calls, the hook that the log was given is told once for each append
/// that the store confirmed, which is once for each call whose caller is told of an
/// append, and at no other time. The prefix and the actor stay.
pub proof fn the_hook_hears_of_each_append_once<S: Store, H: AppendHook>(
    logs: Seq<ProjectLog<S, H>>,
    appended: Seq<bool>,
)
    requires
        row_of_calls(logs, appended),
    ensures
        asked_with(logs.first(), logs.last(), appends_among(appended)),
        told(logs.first().on_append, logs.last().on_append, appends_among(appended)),
        logs.last().prefix == logs.first().prefix,
        logs.last().actor == logs.first().actor,
{
    calls_add_up(logs, appended);
    let answers = choose|answers: Seq<Answer>| #[trigger]
        asked(logs.first(), logs.last(), answers) && confirmed(answers) == appends_among(appended);
    answers_are_heard_once(logs.first(), logs.last(), answers);
}

proof fn calls_add_up<S: Store, H: AppendHook>(
    logs: Seq<ProjectLog<S, H>>,
    appended: Seq<bool>,
)
    requires
        row_of_calls(logs, appended),
    ensures
        asked_with(logs.first(), logs.last(), appends_among(appended)),
    decreases appended.len(),
{
    if appended.len() == 0 {
        asking_nothing(logs.first());
    } else {
        let front = logs.drop_last();
        let before = appended.drop_last();
        assert forall|i: int| 0 <= i < before.len() implies #[trigger] called(
            front[i],
            front[i + 1],
            before[i],
        ) by {
            assert(called(logs[i], logs[i + 1], appended[i]));
        }
        calls_add_up(front, before);
        let n = appended.len() - 1;
        assert(called(logs[n], logs[n + 1], appended[n]));
        calls_append_what_they_tell(logs[n], logs[n + 1], appended[n]);
        asking_with_more(
            logs.first(),
            logs[n],
            logs[n + 1],
            appends_among(before),
            once_if(appended[n]),
        );
    }
}

// ---- observations with one writer ----

/// The project as a log in memory has it.
pub open spec fn standing<H: AppendHook>(
    log: ProjectLog<MemoryStore, H>,
) -> core::result::Result<SnapshotView, ErrorView> {
    log::snapshot_of(
        log.prefix@,
        store::memory_head_at(log.store@.len() as u64),
        log.store@,
    )
}

pub(crate) proof fn snapshots_are_standing<H: AppendHook>(
    log: ProjectLog<MemoryStore, H>,
    answer: core::result::Result<SnapshotView, ErrorView>,
)
    requires
        log.store@.len() <= u64::MAX,
        log.snapshots(answer),
    ensures
        answer == standing(log),
{
    let (head, events) = choose|
        head: core::result::Result<HeadView, ErrorView>,
        events: core::result::Result<Seq<EventView>, ErrorView>,
    | #[trigger]
        log.snapshots_from(head, events, answer);
    assert(log.store@.take(log.store@.len() as int) =~= log.store@);
}

/// Whether the project holds the key at the level, or holds it no more where there is
/// no level.
pub open spec fn holds(s: StateView, key: ObservationKeyView, level: Option<Seq<char>>) -> bool {
    match level {
        Some(text) => s.observations.contains_key(key) && s.observations[key].level == text,
        None => !s.observations.contains_key(key),
    }
}

proof fn news_is_never_refused(
    prefix: Seq<char>,
    snapshot: SnapshotView,
    draft: EventDraftView,
    key: ObservationKeyView,
    level: Option<Seq<char>>,
)
    requires
        rules::foreign_key(
            catalog::listing::<String>(snapshot.state.work.dom()),
            prefix,
        ) is None,
        log::observation_error(key, level) is None,
        log::newness(snapshot.state, key, level) is Some,
        draft.payload == EventPayloadView::Observation(
            log::newness(snapshot.state, key, level)->0,
        ),
    ensures
        log::refusal(prefix, snapshot, draft) is None,
{
    let event = draft.at_seq(store::next_seq(snapshot.head.seq as nat));
    log_laws::news_is_accepted(snapshot.state, event, key, level);
    assert((rules::step(snapshot.state, event)->Ok_0).work == snapshot.state.work);
}

/// With no other writer, an observation settles at once: where the project holds it
/// already, nothing is appended and the head is told; else one event is appended,
/// behind which the project holds it. What the store is said to have appended is new
/// to the log, unless chance has given it the ID of an event that is there.
pub proof fn a_lone_observer_settles_at_once<H: AppendHook>(
    before: ProjectLog<MemoryStore, H>,
    after: ProjectLog<MemoryStore, H>,
    key: ObservationKeyView,
    level: Option<Seq<char>>,
    outcome: Observed,
)
    requires
        before.store@.len() < u64::MAX,
        standing(before) is Ok,
        log::observation_error(key, level) is None,
        before.observes(after, key, level, outcome),
        outcome matches Ok(ObservationAppendView::Appended(result))
            ==> !before.store@.contains(result.event),
    ensures
        outcome is Ok,
        standing(after) is Ok,
        holds((standing(after)->Ok_0).state, key, level),
        holds((standing(before)->Ok_0).state, key, level) ==> after == before && outcome == Ok::<
            ObservationAppendView,
            ErrorView,
        >(
            ObservationAppendView::Unchanged {
                head: store::memory_head_at(before.store@.len() as u64),
            },
        ),
        !holds((standing(before)->Ok_0).state, key, level) ==> was_news(outcome)
            && log_laws::appended_behind(
            before,
            after,
            standing(before)->Ok_0,
            EventPayloadView::Observation(
                log::newness((standing(before)->Ok_0).state, key, level)->0,
            ),
            outcome->Ok_0->Appended_0,
        ),
        before.prefix == after.prefix,
{
    let rounds = log::OBSERVATION_APPEND_ATTEMPTS as nat;
    let answer = choose|answer: core::result::Result<SnapshotView, ErrorView>| #[trigger]
        before.snapshots(answer) && round_begins(before, after, answer, key, level, rounds, outcome);
    assert(before.settles(after, key, level, rounds, outcome));
    snapshots_are_standing(before, answer);
    let snapshot = standing(before)->Ok_0;
    if let Some(news) = log::newness(snapshot.state, key, level) {
        let payload = EventPayloadView::Observation(news);
        let (middle, told_answer) = choose|middle: ProjectLog<MemoryStore, H>, told_answer: Answer|
            #[trigger]
            before.states(middle, snapshot, payload, told_answer) && round_ends(
                middle,
                after,
                key,
                level,
                rounds,
                told_answer,
                outcome,
            );
        assert forall|id: Seq<char>, at: Instant|
            log::refusal(
                before.prefix@,
                snapshot,
                #[trigger] log::draft_of(id, at, before.actor@, payload),
            ) is None by {
            news_is_never_refused(
                before.prefix@,
                snapshot,
                log::draft_of(id, at, before.actor@, payload),
                key,
                level,
            );
        }
        log_laws::a_writer_alone_is_never_refused(before, middle, snapshot, payload, told_answer);
        statements_ask_once(before, middle, snapshot, payload, told_answer);
        let answers = choose|answers: Seq<Answer>| #[trigger] asked(before, middle, answers);
        answers_are_heard_once(before, middle, answers);
        let event = told_answer->Ok_0.event;
        assert((rules::step(snapshot.state, event)->Ok_0).work == snapshot.state.work);
    }
}

/// With no other writer, the same observation made again is unchanged at the head that
/// the first left, and nothing is appended.
pub proof fn an_observation_made_again_is_unchanged<H: AppendHook>(
    before: ProjectLog<MemoryStore, H>,
    between: ProjectLog<MemoryStore, H>,
    after: ProjectLog<MemoryStore, H>,
    key: ObservationKeyView,
    level: Option<Seq<char>>,
    first: Observed,
    second: Observed,
)
    requires
        before.store@.len() < u64::MAX - 1,
        standing(before) is Ok,
        log::observation_error(key, level) is None,
        before.observes(between, key, level, first),
        first matches Ok(ObservationAppendView::Appended(result))
            ==> !before.store@.contains(result.event),
        between.observes(after, key, level, second),
    ensures
        after == between,
        second == Ok::<ObservationAppendView, ErrorView>(
            ObservationAppendView::Unchanged {
                head: store::memory_head_at(between.store@.len() as u64),
            },
        ),
        first matches Ok(ObservationAppendView::Appended(result)) ==> second == Ok::<
            ObservationAppendView,
            ErrorView,
        >(ObservationAppendView::Unchanged { head: result.head }),
        first matches Ok(ObservationAppendView::Unchanged { head }) ==> second == first,
{
    a_lone_observer_settles_at_once(before, between, key, level, first);
    a_lone_observer_settles_at_once(between, after, key, level, second);
}

} // verus!

//! What is planned of a statement before it is appended, and which names it gives.

use vstd::prelude::*;

use crate::change_laws;
use crate::config;
use crate::config::{ConfigView, ObserverView};
use crate::effect_laws;
use crate::event::{EventDraftView, EventPayloadView, EventView, WorkEventPayloadView};
use crate::git;
use crate::json::JsonView;
use crate::laws;
use crate::log;
use crate::log_laws;
use crate::project::StateView;
use crate::rules;
use crate::sorting;
use crate::status_laws;
use crate::store;
use crate::store::HeadView;
use crate::text;
use crate::text_laws;
use crate::work::{WorkDefinitionView, WorkOperationView, WorkStateChangeView};

verus! {

// ---- attempts and questions ----

/// An attempt is planned at open work that nobody is at and whose requirements are all done.
/// What is stated is an attempt at that work, with the tier and the metadata that were given,
/// under the ID that is told.
pub proof fn attempts_are_planned_at_ready_work(
    s: StateView,
    work_id: Seq<char>,
    tier: Option<Seq<char>>,
    metadata: Map<Seq<char>, JsonView>,
)
    requires
        laws::sound(s),
    ensures
        ({
            let plan = log::start_plan(s, work_id, tier, metadata);
            &&& plan is Ok <==> s.work.contains_key(work_id) && s.work[work_id].state is Open
                && !effect_laws::busy(s, work_id) && effect_laws::met(s, s.work[work_id])
            &&& plan is Ok ==> plan->Ok_0.0 is Work && plan->Ok_0.0->Work_0 is AttemptStarted && {
                let attempt = plan->Ok_0.0->Work_0->attempt;
                &&& attempt.id == plan->Ok_0.1
                &&& attempt.work_id == work_id
                &&& attempt.tier == tier
                &&& attempt.metadata == metadata
            }
            &&& s.work.contains_key(work_id) && effect_laws::busy(s, work_id) ==> plan is Err
                && plan->Err_0.code == "active_attempt"@
            &&& !s.work.contains_key(work_id) ==> plan is Err && plan->Err_0.code == "not_found"@
        }),
{
    effect_laws::busy_is_active(s, work_id);
    if s.work.contains_key(work_id) {
        effect_laws::met_is_all_done(s, s.work[work_id]);
    }
}

/// A question is planned about any work there is, whatever its state, with the text that was
/// given, under the ID that is told.
pub proof fn questions_are_planned_about_work(s: StateView, work_id: Seq<char>, content: Seq<char>)
    ensures
        ({
            let plan = log::ask_plan(s, work_id, content);
            &&& plan is Ok <==> s.work.contains_key(work_id)
            &&& plan is Ok ==> plan->Ok_0.0 is Work && plan->Ok_0.0->Work_0 is QuestionAsked && {
                let question = plan->Ok_0.0->Work_0->question;
                &&& question.id == plan->Ok_0.1
                &&& question.work_id == work_id
                &&& question.text == content
            }
        }),
{
}

/// What stands in the way of work is what it requires and is not done.
pub proof fn unmet_is_what_is_not_done(s: StateView, ids: Seq<Seq<char>>, id: Seq<char>)
    ensures
        log::unmet(s, ids).contains(id) <==> ids.contains(id) && !(s.work.contains_key(id)
            && s.work[id].state is Done),
    decreases ids.len(),
{
    if ids.len() > 0 {
        let front = ids.drop_last();
        unmet_is_what_is_not_done(s, front, id);
        assert(ids =~= front.push(ids.last()));
        change_laws::pushed_holds(front, ids.last(), id);
        change_laws::pushed_holds(log::unmet(s, front), ids.last(), id);
    }
}

/// Blocking and unblocking change the state of the one item and nothing else of it, nor any
/// other item.
pub proof fn state_plans_change_the_state_alone(
    s: StateView,
    work_id: Seq<char>,
    change: WorkStateChangeView,
    event: EventView,
)
    requires
        laws::sound(s),
        log::state_plan(s, work_id, change) is Ok,
        event.payload == log::state_plan(s, work_id, change)->Ok_0,
        rules::step(s, event) is Ok,
    ensures
        ({
            let t = rules::step(s, event)->Ok_0;
            let before = s.work[work_id];
            let after = t.work[work_id];
            &&& s.work.contains_key(work_id) && t.work.contains_key(work_id)
            &&& after.title == before.title && after.spec == before.spec
            &&& after.priority == before.priority && after.outcome == before.outcome
            &&& forall|r: Seq<char>| #[trigger]
                after.requires.contains(r) <==> before.requires.contains(r)
            &&& change is Block ==> after.state is Blocked
            &&& change is Unblock ==> after.state is Open
            &&& forall|k: Seq<char>|
                k != work_id ==> (#[trigger] t.work.contains_key(k) <==> s.work.contains_key(k))
                    && (s.work.contains_key(k) ==> t.work[k] == s.work[k])
            &&& t.attempts == s.attempts && t.questions == s.questions
        }),
{
    let operations = seq![log::state_edit(work_id, change)];
    change_laws::changes_do_what_their_operations_say(
        s,
        event,
        Some(log::change_reason(change)),
        operations,
    );
    let t = rules::step(s, event)->Ok_0;
    assert(operations[0].target() == work_id);
    assert(change_laws::edited_as(s.work[work_id], t.work[work_id], operations[0], event.seq));
    assert forall|k: Seq<char>| k != work_id implies (#[trigger] t.work.contains_key(k)
        <==> s.work.contains_key(k)) && (s.work.contains_key(k) ==> t.work[k] == s.work[k]) by {
        assert forall|i: int| 0 <= i < operations.len() implies (
        #[trigger] operations[i]).target() != k by {
            assert(operations[i] == operations[0]);
        }
    }
}

// ---- new names ----

/// A new item is named by the first of the tokens whose name is not taken, behind the prefix
/// and a hyphen; there is no name only if they are all taken.
pub proof fn new_names_are_free(
    s: StateView,
    allocated: Seq<Seq<char>>,
    prefix: Seq<char>,
    tokens: Seq<Seq<char>>,
)
    ensures
        ({
            let found = log::first_free(s, allocated, prefix, tokens);
            &&& found is Some ==> !s.work.contains_key(found->0) && !allocated.contains(found->0)
                && exists|i: int|
                0 <= i < tokens.len() && found->0 == prefix + "-"@ + #[trigger] tokens[i]
                    && forall|j: int|
                    0 <= j < i ==> s.work.contains_key(prefix + "-"@ + #[trigger] tokens[j])
                        || allocated.contains(prefix + "-"@ + tokens[j])
            &&& found is None ==> forall|j: int|
                0 <= j < tokens.len() ==> s.work.contains_key(prefix + "-"@ + #[trigger] tokens[j])
                    || allocated.contains(prefix + "-"@ + tokens[j])
        }),
    decreases tokens.len(),
{
    if tokens.len() > 0 {
        let front = tokens.drop_last();
        new_names_are_free(s, allocated, prefix, front);
        assert forall|j: int| 0 <= j < front.len() implies #[trigger] tokens[j] == front[j] by {}
        let found = log::first_free(s, allocated, prefix, tokens);
        match log::first_free(s, allocated, prefix, front) {
            Some(id) => {
                let i = choose|i: int|
                    0 <= i < front.len() && id == prefix + "-"@ + #[trigger] front[i] && forall|
                        j: int,
                    |
                        0 <= j < i ==> s.work.contains_key(prefix + "-"@ + #[trigger] front[j])
                            || allocated.contains(prefix + "-"@ + front[j]);
                assert(found->0 == prefix + "-"@ + tokens[i]);
                assert forall|j: int| 0 <= j < i implies s.work.contains_key(
                    prefix + "-"@ + #[trigger] tokens[j],
                ) || allocated.contains(prefix + "-"@ + tokens[j]) by {
                    assert(front[j] == tokens[j]);
                }
            },
            None => {
                assert forall|j: int| 0 <= j < front.len() implies s.work.contains_key(
                    prefix + "-"@ + #[trigger] tokens[j],
                ) || allocated.contains(prefix + "-"@ + tokens[j]) by {
                    assert(front[j] == tokens[j]);
                }
                if found is Some {
                    assert(found->0 == prefix + "-"@ + tokens[tokens.len() - 1]);
                }
            },
        }
    }
}

/// Names that are drawn together differ from each other and from those there are.
pub proof fn names_drawn_together_differ(
    s: StateView,
    prefix: Seq<char>,
    draws: Seq<Seq<Seq<char>>>,
    n: nat,
)
    ensures
        log::allocated_ids(s, prefix, draws, n) is Ok ==> {
            let ids = log::allocated_ids(s, prefix, draws, n)->Ok_0;
            &&& ids.len() == n
            &&& ids.no_duplicates()
            &&& forall|i: int| 0 <= i < n ==> !s.work.contains_key(#[trigger] ids[i])
        },
    decreases n,
{
    if n > 0 {
        names_drawn_together_differ(s, prefix, draws, (n - 1) as nat);
        if log::allocated_ids(s, prefix, draws, n) is Ok {
            let front = log::allocated_ids(s, prefix, draws, (n - 1) as nat)->Ok_0;
            let ids = log::allocated_ids(s, prefix, draws, n)->Ok_0;
            new_names_are_free(s, front, prefix, draws[n - 1]);
            assert(ids == front.push(ids.last()));
            assert forall|i: int, j: int|
                0 <= i < ids.len() && 0 <= j < ids.len() && i != j implies ids[i] != ids[j] by {
                if i < front.len() && j < front.len() {
                    assert(front[i] != front[j]);
                } else if i < front.len() {
                    assert(front.contains(front[i]));
                } else {
                    assert(front.contains(front[j]));
                }
            }
            assert forall|i: int| 0 <= i < n implies !s.work.contains_key(#[trigger] ids[i]) by {
                if i < front.len() {
                    assert(ids[i] == front[i]);
                }
            }
        }
    }
}

/// A new item is planned as it was given, under a name that is free and that is told.
pub proof fn additions_are_planned_as_given(
    s: StateView,
    prefix: Seq<char>,
    tokens: Seq<Seq<char>>,
    work: WorkDefinitionView,
)
    ensures
        ({
            let plan = log::add_plan(s, prefix, tokens, work);
            plan is Ok ==> {
                let id = plan->Ok_0.1;
                &&& !s.work.contains_key(id)
                &&& plan->Ok_0.0 == EventPayloadView::Work(
                    WorkEventPayloadView::WorkChanged {
                        why: None,
                        operations: seq![
                            WorkOperationView::Add { work: WorkDefinitionView { id, ..work } },
                        ],
                    },
                )
            }
        }),
{
    new_names_are_free(s, Seq::empty(), prefix, tokens);
}

// ---- manifests ----

/// Whether an observer is usable: a plain name, and a list or a probe, not both, that says
/// something.
pub open spec fn usable_observer(observer: ObserverView) -> bool {
    &&& effect_laws::plain_name(observer.observer)
    &&& observer.list is Some <==> observer.probe is None
    &&& observer.list is Some ==> !text::blank(observer.list->0)
    &&& observer.probe is Some ==> !text::blank(observer.probe->0)
}

/// Whether no two of the observers have one name.
pub open spec fn observers_differ(observers: Seq<ObserverView>) -> bool {
    forall|i: int, j: int|
        0 <= i < j < observers.len() ==> (#[trigger] observers[i]).observer != (
        #[trigger] observers[j]).observer
}

proof fn observers_are_faultless(observers: Seq<ObserverView>)
    ensures
        config::observers_error(observers) is None <==> observers_differ(observers) && forall|i: int|
            0 <= i < observers.len() ==> usable_observer(#[trigger] observers[i]),
    decreases observers.len(),
{
    if observers.len() > 0 {
        let front = observers.drop_last();
        let last = observers.last();
        observers_are_faultless(front);
        effect_laws::names_agree(last.observer);
        assert forall|i: int| 0 <= i < front.len() implies #[trigger] observers[i] == front[i] by {}
        assert(usable_observer(last) <==> rules::is_name(last.observer)
            && config::has_one_command(last));
        if config::observers_error(observers) is None {
            assert forall|i: int| 0 <= i < observers.len() implies usable_observer(
                #[trigger] observers[i],
            ) by {
                if i < front.len() {
                    assert(usable_observer(front[i]));
                }
            }
            assert forall|i: int, j: int| 0 <= i < j < observers.len() implies (
            #[trigger] observers[i]).observer != (#[trigger] observers[j]).observer by {
                if j < front.len() {
                    assert(front[i].observer != front[j].observer);
                } else {
                    assert(front[i].observer != last.observer);
                }
            }
        }
        if observers_differ(observers) && (forall|i: int|
            0 <= i < observers.len() ==> usable_observer(#[trigger] observers[i])) {
            assert forall|i: int| 0 <= i < front.len() implies usable_observer(
                #[trigger] front[i],
            ) by {
                assert(usable_observer(observers[i]));
            }
            assert(observers_differ(front)) by {
                assert forall|i: int, j: int| 0 <= i < j < front.len() implies (
                #[trigger] front[i]).observer != (#[trigger] front[j]).observer by {
                    assert(observers[i].observer != observers[j].observer);
                }
            }
            assert(usable_observer(observers[observers.len() - 1]));
            assert forall|i: int| 0 <= i < front.len() implies (#[trigger] front[i]).observer
                != last.observer by {
                assert(observers[i].observer != observers[observers.len() - 1].observer);
            }
        }
    }
}

/// A manifest is valid exactly if it has the schema of manifests, a plain prefix, a remote and
/// a ref that say something, and usable observers with names of their own.
pub proof fn valid_manifests_are_these(config: ConfigView)
    ensures
        config::config_error(config) is None <==> {
            &&& config.schema == "alder.config.v0"@
            &&& effect_laws::plain_name(config.prefix)
            &&& !text::blank(config.remote) && !text::blank(config.reference)
            &&& observers_differ(config.observers)
            &&& forall|i: int|
                0 <= i < config.observers.len() ==> usable_observer(#[trigger] config.observers[i])
        },
{
    effect_laws::names_agree(config.prefix);
    observers_are_faultless(config.observers);
}

/// A project may be set up again under the identity that it has: the same prefix, remote and
/// ref. The observers are not part of it.
pub proof fn identities_are_prefix_and_store(existing: ConfigView, requested: ConfigView)
    ensures
        config::same_identity(existing, requested) <==> existing.schema == "alder.config.v0"@
            && existing.prefix == requested.prefix && existing.remote == requested.remote
            && existing.reference == requested.reference,
{
}

// ---- the log as files ----

/// What is kept of a log are the listed paths below `events/` that end in `.json`, in
/// ascending order.
pub proof fn event_files_are_the_listed_ones(listing: Seq<char>)
    ensures
        forall|path: Seq<char>| #[trigger]
            git::event_files(listing).contains(path) <==> git::lines_in(listing).contains(path)
                && "events/"@.is_prefix_of(path) && ".json"@.is_suffix_of(path),
        forall|i: int, j: int|
            0 <= i < j < git::event_files(listing).len() ==> !text::text_before(
                #[trigger] git::event_files(listing)[j],
                #[trigger] git::event_files(listing)[i],
            ),
{
    let lines = git::lines_in(listing);
    let kept = lines.filter(git::is_event_file());
    let files = git::event_files(listing);
    laws::texts_weakly_ordered();
    sorting::sorted_is_ordered_permutation::<String>(kept);
    assert forall|path: Seq<char>| #[trigger] files.contains(path) <==> lines.contains(path)
        && "events/"@.is_prefix_of(path) && ".json"@.is_suffix_of(path) by {
        effect_laws::sorted_holds::<String>(kept, path);
        status_laws::filtered_holds(lines, git::is_event_file(), path);
    }
    assert forall|i: int, j: int| 0 <= i < j < files.len() implies !text::text_before(
        #[trigger] files[j],
        #[trigger] files[i],
    ) by {
        assert(!<String as sorting::Ranked>::ahead(files[j], files[i]));
    }
}

/// What was read is a log exactly if its events are numbered from one on, and no two of them
/// have one ID.
pub proof fn read_logs_are_numbered_and_unique(events: Seq<EventView>)
    ensures
        git::sequence_error(events) is None <==> {
            &&& forall|i: int| 0 <= i < events.len() ==> (#[trigger] events[i]).seq == i + 1
            &&& forall|i: int, j: int|
                0 <= i < j < events.len() ==> (#[trigger] events[i]).id != (
                #[trigger] events[j]).id
        },
    decreases events.len(),
{
    if events.len() > 0 {
        let front = events.drop_last();
        read_logs_are_numbered_and_unique(front);
        assert forall|i: int| 0 <= i < front.len() implies #[trigger] events[i] == front[i] by {}
        if git::sequence_error(events) is None {
            assert forall|i: int| 0 <= i < events.len() implies (#[trigger] events[i]).seq == i
                + 1 by {
                if i < front.len() {
                    assert(front[i].seq == i + 1);
                }
            }
            assert forall|i: int, j: int| 0 <= i < j < events.len() implies (
            #[trigger] events[i]).id != (#[trigger] events[j]).id by {
                if j < front.len() {
                    assert(front[i].id != front[j].id);
                } else {
                    assert(front[i].id != events.last().id);
                }
            }
        }
        if (forall|i: int| 0 <= i < events.len() ==> (#[trigger] events[i]).seq == i + 1) && (
        forall|i: int, j: int|
            0 <= i < j < events.len() ==> (#[trigger] events[i]).id != (#[trigger] events[j]).id) {
            assert forall|i: int| 0 <= i < front.len() implies (#[trigger] front[i]).seq == i
                + 1 by {
                assert(events[i].seq == i + 1);
            }
            assert forall|i: int, j: int| 0 <= i < j < front.len() implies (
            #[trigger] front[i]).id != (#[trigger] front[j]).id by {
                assert(events[i].id != events[j].id);
            }
            assert(events[events.len() - 1].seq == events.len());
            assert forall|i: int| 0 <= i < front.len() implies (#[trigger] front[i]).id
                != events.last().id by {
                assert(events[i].id != events[events.len() - 1].id);
            }
        }
    }
}

/// The lines of a text are what stands in front of each line feed, without the carriage return
/// before it, and what stands behind the last, if anything does.
pub proof fn lines_end_at_line_feeds(line: Seq<char>, rest: Seq<char>)
    requires
        !line.contains('\n'),
    ensures
        git::lines_in(Seq::empty()) == Seq::<Seq<char>>::empty(),
        line.len() > 0 ==> git::lines_in(line) == seq![line],
        line.len() == 0 || line.last() != '\r' ==> git::lines_in(line.push('\n') + rest)
            == seq![line] + git::lines_in(rest),
        git::lines_in(line + seq!['\r', '\n'] + rest) == seq![line] + git::lines_in(rest),
{
    text_laws::cutting_parts_at_the_first(line, '\n', rest);
    let ended = line.push('\r');
    assert forall|i: int| 0 <= i < ended.len() implies ended[i] != '\n' by {
        if i < line.len() {
            assert(line.contains(line[i]));
        }
    }
    text_laws::cutting_parts_at_the_first(ended, '\n', rest);
    assert(ended.push('\n') + rest =~= line + seq!['\r', '\n'] + rest);
    assert(ended.drop_last() =~= line);
}

/// The attempts at a work item, and the questions about it, are counted from one, and named
/// after it and their number.
pub proof fn attempts_and_questions_are_counted(s: StateView, work_id: Seq<char>)
    requires
        log_laws::attempts_at(s, work_id) < u64::MAX,
        log_laws::questions_about(s, work_id) < u64::MAX,
    ensures
        log::next_attempt_id(s, work_id) == work_id + "-attempt-"@ + text::decimal(
            log_laws::attempts_at(s, work_id) + 1,
        ),
        log::next_question_id(s, work_id) == work_id + "-question-"@ + text::decimal(
            log_laws::questions_about(s, work_id) + 1,
        ),
{
}

/// Whether one of the events has the ID.
pub open spec fn in_log(events: Seq<EventView>, id: Seq<char>) -> bool {
    exists|i: int| 0 <= i < events.len() && (#[trigger] events[i]).id == id
}

/// Before a push: a draft that is in the log already is not pushed again; one that is not is
/// pushed behind the head that is expected, if the log stands there, and is a conflict
/// otherwise.
pub proof fn drafts_are_pushed_once_behind_the_head(
    expected: HeadView,
    draft: EventDraftView,
    current: HeadView,
    events: Seq<EventView>,
)
    requires
        expected.seq < u64::MAX,
    ensures
        ({
            let step = git::before_push(expected, draft, current, events);
            &&& in_log(events, draft.id) ==> step is Ok && step->Ok_0 is Settled
                && step->Ok_0->Settled_0.head == current && step->Ok_0->Settled_0.event.id
                == draft.id && events.contains(step->Ok_0->Settled_0.event)
            &&& !in_log(events, draft.id) && current != expected ==> step is Err
                && step->Err_0.code == "head_conflict"@
            &&& !in_log(events, draft.id) && current == expected ==> step is Ok
                && step->Ok_0 is Push && step->Ok_0->Push_0.seq == expected.seq + 1
                && step->Ok_0->Push_0.payload == draft.payload && step->Ok_0->Push_0.id == draft.id
        }),
{
    store::event_with_id_finds(events, draft.id);
}

/// After a push that failed: a draft that is in the log all the same was appended; else
/// another writer was first, if the log stands elsewhere, and nobody can tell otherwise.
pub proof fn failed_pushes_are_settled_by_the_log(
    expected: HeadView,
    draft: EventDraftView,
    after: HeadView,
    events: Seq<EventView>,
    stderr: Seq<char>,
)
    ensures
        ({
            let told = git::after_failed_push(expected, draft, after, events, stderr);
            &&& told is Ok <==> in_log(events, draft.id)
            &&& told is Ok ==> told->Ok_0.head == after && told->Ok_0.event.id == draft.id
                && events.contains(told->Ok_0.event)
            &&& told is Err && after != expected ==> told->Err_0.code == "head_conflict"@
            &&& told is Err && after == expected ==> told->Err_0.code
                == "unknown_append_outcome"@
        }),
{
    store::event_with_id_finds(events, draft.id);
}

/// What was printed is kept up to a length, and marked where something is left out.
pub proof fn long_texts_are_cut_and_marked(content: Seq<char>)
    ensures
        content.len() <= 4096 ==> git::shortened(content) == content,
        content.len() > 4096 ==> git::shortened(content).take(4096) == content.take(4096)
            && git::shortened(content).skip(4096) == "…"@,
{
    if content.len() > 4096 {
        assert(git::shortened(content).take(4096) =~= content.take(4096));
        assert(git::shortened(content).skip(4096) =~= "…"@);
    }
}

/// A manifest that is there stands in nobody's way exactly if it can be read, is valid, and
/// has the identity that is asked for.
pub proof fn only_the_same_manifest_may_be_there(
    path: Seq<char>,
    read: core::result::Result<ConfigView, Seq<char>>,
    requested: ConfigView,
)
    ensures
        config::existing_error(path, read, requested) is None <==> read is Ok
            && read->Ok_0.prefix == requested.prefix && read->Ok_0.remote == requested.remote
            && read->Ok_0.reference == requested.reference && config::config_error(
            read->Ok_0,
        ) is None,
        config::existing_error(path, read, requested) is Some ==> config::existing_error(
            path,
            read,
            requested,
        )->0.code == "config_conflict"@,
{
}

/// A project may be set on a log exactly if the log folds and all its work has the prefix.
pub proof fn logs_are_taken_over_whole(
    head: HeadView,
    events: Seq<EventView>,
    prefix: Seq<char>,
)
    ensures
        config::store_verdict(head, events, prefix) is Ok <==> rules::folded(events) is Ok
            && forall|id: Seq<char>| #[trigger]
            rules::folded(events)->Ok_0.work.contains_key(id) ==> (prefix + "-"@).is_prefix_of(id),
        config::store_verdict(head, events, prefix) is Ok ==> config::store_verdict(
            head,
            events,
            prefix,
        )->Ok_0 == head.seq,
{
    if rules::folded(events) is Ok {
        laws::folded_projects_are_sound(events);
        let work = rules::folded(events)->Ok_0.work;
        let keys = crate::catalog::listing::<String>(work.dom());
        crate::catalog::listing_exists::<String>(work.dom());
        crate::answer_laws::work_at_home_has_the_prefix(keys, prefix);
        assert forall|i: int| 0 <= i < keys.len() implies work.contains_key(
            #[trigger] keys[i],
        ) by {
            assert(keys.to_set().contains(keys[i]));
        }
        assert forall|id: Seq<char>| #[trigger] work.contains_key(id) implies keys.contains(id) by {
            assert(keys.to_set().contains(id));
        }
        if forall|i: int| 0 <= i < keys.len() ==> (prefix + "-"@).is_prefix_of(#[trigger] keys[i]) {
            assert forall|id: Seq<char>| #[trigger] work.contains_key(id) implies (prefix
                + "-"@).is_prefix_of(id) by {
                assert(keys.contains(id));
                let i = choose|i: int| 0 <= i < keys.len() && keys[i] == id;
                assert((prefix + "-"@).is_prefix_of(keys[i]));
            }
        }
    }
}

} // verus!

//! What commands leave in the log, with no other writer there.

use vstd::prelude::*;

use crate::cli::{AttemptEditArgs, AttemptEndArgs, LoopCommand, WorkCommand};
use crate::commands;
use crate::commands::Told;
use crate::error::ErrorView;
use crate::event::{EventPayloadView, EventView, LoopEventPayloadView, WorkEventPayloadView};
use crate::ids;
use crate::input;
use crate::instant::Instant;
use crate::json::JsonView;
use crate::log;
use crate::log::{AppendHook, ProjectLog, SnapshotView};
use crate::log_laws;
use crate::sessions;
use crate::store;
use crate::store::{AppendResultView, MemoryStore};
use crate::text;
use crate::views;
use crate::work::{WorkOperationView, WorkStateChangeView};

verus! {

/// Whether one event was appended, with this statement and by the actor of the log, and
/// nothing else changed; or the event was in the log already, by an ID that chance has given
/// twice.
pub open spec fn wrote<H: AppendHook>(
    before: ProjectLog<MemoryStore, H>,
    after: ProjectLog<MemoryStore, H>,
    payload: EventPayloadView,
    event: EventView,
) -> bool {
    ||| after.store@ == before.store@.push(event) && event.payload == payload && event.actor
        == before.actor@ && event.seq == before.store@.len() + 1
    ||| after.store@ == before.store@ && before.store@.contains(event)
}

proof fn statements_are_written<H: AppendHook>(
    before: ProjectLog<MemoryStore, H>,
    after: ProjectLog<MemoryStore, H>,
    snapshot: SnapshotView,
    payload: EventPayloadView,
    result: AppendResultView,
)
    requires
        before.store@.len() < u64::MAX,
        sessions::standing(before) == Ok::<SnapshotView, ErrorView>(snapshot),
        before.states(after, snapshot, payload, Ok(result)),
    ensures
        wrote(before, after, payload, result.event),
{
    let outcome = Ok::<AppendResultView, ErrorView>(result);
    let (id, at) = choose|id: Seq<char>, at: Instant|
        ids::ulid_shaped(id) && #[trigger] before.appends(
            after,
            snapshot,
            log::draft_of(id, at, before.actor@, payload),
            outcome,
        );
    let draft = log::draft_of(id, at, before.actor@, payload);
    let events = before.store@;
    let answer = choose|answer: core::result::Result<AppendResultView, ErrorView>| #[trigger]
        before.answers(after, snapshot.head, draft, answer, outcome);
    if store::event_with_id(events, draft.id) is None {
        log_laws::accepted_appends_keep_the_log_readable(events, before.prefix@, snapshot, draft);
    } else {
        store::event_with_id_finds(events, draft.id);
    }
}

proof fn sayings_are_written<H: AppendHook>(
    before: ProjectLog<MemoryStore, H>,
    after: ProjectLog<MemoryStore, H>,
    plan: spec_fn(SnapshotView) -> log::Plan,
    result: AppendResultView,
)
    requires
        before.store@.len() < u64::MAX,
        before.says(after, plan, Ok(result)),
    ensures
        sessions::standing(before) is Ok,
        plan(sessions::standing(before)->Ok_0) is Ok,
        wrote(before, after, plan(sessions::standing(before)->Ok_0)->Ok_0, result.event),
{
    let outcome = Ok::<AppendResultView, ErrorView>(result);
    let snapshot = choose|snapshot: core::result::Result<SnapshotView, ErrorView>| #[trigger]
        before.snapshots(snapshot) && match snapshot {
            Err(error) => outcome == Err::<AppendResultView, ErrorView>(error) && after == before,
            Ok(s) => match plan(s) {
                Err(error) => outcome == Err::<AppendResultView, ErrorView>(error) && after
                    == before,
                Ok(payload) => before.states(after, s, payload, outcome),
            },
        };
    sessions::snapshots_are_standing(before, snapshot);
    statements_are_written(before, after, snapshot->Ok_0, plan(snapshot->Ok_0)->Ok_0, result);
}

/// Whether the answer to a command tells of the event.
pub open spec fn tells_of(outcome: Told, event: EventView) -> bool {
    outcome is Ok && outcome->Ok_0.json.member("event_id"@) == Some(JsonView::Text(event.id))
}

/// What a command about the loop states: that it is to pause, and why; to go on; which
/// engine to use; to rotate, and why; or to look now, and why.
pub open spec fn loop_statement(command: LoopCommand) -> EventPayloadView {
    EventPayloadView::Loop(
        match command {
            LoopCommand::Pause(args) => LoopEventPayloadView::LoopPaused {
                why: views::opt_view(args.why),
            },
            LoopCommand::Resume => LoopEventPayloadView::LoopResumed {  },
            LoopCommand::Use(args) => LoopEventPayloadView::LoopEngineSelected {
                engine: args.engine@,
            },
            LoopCommand::Rotate(args) => LoopEventPayloadView::LoopRotationRequested {
                why: views::opt_view(args.why),
            },
            LoopCommand::Nudge(args) => LoopEventPayloadView::LoopNudgeRequested {
                why: views::opt_view(args.why),
            },
        },
    )
}

/// A command about the loop that goes through leaves its statement in the log, and answers
/// with the event that it became.
pub proof fn loop_commands_leave_their_statement<H: AppendHook>(
    before: ProjectLog<MemoryStore, H>,
    after: ProjectLog<MemoryStore, H>,
    command: LoopCommand,
    outcome: Told,
)
    requires
        before.store@.len() < u64::MAX,
        commands::loop_done(before, after, command, outcome),
        outcome is Ok,
    ensures
        exists|event: EventView| #[trigger]
            wrote(before, after, loop_statement(command), event) && tells_of(outcome, event),
{
    let answer = choose|answer: commands::Answer| #[trigger]
        before.says(after, log::always(loop_statement(command)), answer) && answer is Ok
            && outcome is Ok && outcome->Ok_0.json.member("event_id"@) == Some(
            JsonView::Text(answer->Ok_0.event.id),
        );
    assert(before.says(after, log::always(loop_statement(command)), answer) && answer is Ok
        && outcome->Ok_0.json.member("event_id"@) == Some(
        JsonView::Text(answer->Ok_0.event.id),
    )) by {
        envelopes_tell_the_event();
    }
    sayings_are_written(before, after, log::always(loop_statement(command)), answer->Ok_0);
    assert(wrote(before, after, loop_statement(command), answer->Ok_0.event));
}

/// Whatever the answer says, it tells which event was appended.
proof fn envelopes_tell_the_event()
    ensures
        forall|answer: commands::Answer, schema: Seq<char>, fields: JsonView, human: Seq<char>|
            answer is Ok ==> (#[trigger] commands::answered(
                answer,
                schema,
                fields,
                human,
            ))->Ok_0.json.member("event_id"@) == Some(JsonView::Text(answer->Ok_0.event.id)),
{
    assert forall|answer: commands::Answer, schema: Seq<char>, fields: JsonView, human: Seq<char>|
        answer is Ok implies (#[trigger] commands::answered(
        answer,
        schema,
        fields,
        human,
    ))->Ok_0.json.member("event_id"@) == Some(JsonView::Text(answer->Ok_0.event.id)) by {
        crate::documents::the_envelope_is_the_appends(
            answer->Ok_0.head,
            schema,
            answer->Ok_0.event.id,
            fields,
        );
    }
}

/// What a command that finishes, drops or reopens work states.
pub open spec fn closing_statement(command: WorkCommand) -> Option<EventPayloadView> {
    match command {
        WorkCommand::Finish(args) => Some(
            EventPayloadView::Work(
                WorkEventPayloadView::WorkFinished {
                    work_id: args.work@,
                    attempt_id: views::opt_view(args.attempt),
                    external: args.external,
                    evidence: views::opt_view(args.evidence),
                },
            ),
        ),
        WorkCommand::Drop(args) => Some(
            EventPayloadView::Work(
                WorkEventPayloadView::WorkDropped {
                    work_id: args.work@,
                    attempt_id: views::opt_view(args.attempt),
                    outcome: match args.outcome {
                        Some(given) => Some(given.meant()),
                        None => None,
                    },
                    why: args.why@,
                },
            ),
        ),
        WorkCommand::Reopen(args) => Some(
            EventPayloadView::Work(
                WorkEventPayloadView::WorkReopened { work_id: args.work@, why: args.why@ },
            ),
        ),
        _ => None,
    }
}

/// A command that finishes, drops or reopens work and goes through leaves its statement in
/// the log, and answers with the event that it became.
pub proof fn closing_commands_leave_their_statement<H: AppendHook>(
    before: ProjectLog<MemoryStore, H>,
    after: ProjectLog<MemoryStore, H>,
    snapshot: SnapshotView,
    command: WorkCommand,
    document: Option<commands::DocumentTold>,
    outcome: Told,
)
    requires
        before.store@.len() < u64::MAX,
        commands::work_done(before, after, snapshot, command, document, outcome),
        closing_statement(command) is Some,
        outcome is Ok,
    ensures
        exists|event: EventView| #[trigger]
            wrote(before, after, closing_statement(command)->0, event) && tells_of(outcome, event),
{
    let payload = closing_statement(command)->0;
    let answer = choose|answer: commands::Answer| #[trigger]
        before.says(after, log::always(payload), answer) && answer is Ok && outcome is Ok
            && outcome->Ok_0.json.member("event_id"@) == Some(
            JsonView::Text(answer->Ok_0.event.id),
        );
    assert(before.says(after, log::always(payload), answer) && answer is Ok
        && outcome->Ok_0.json.member("event_id"@) == Some(
        JsonView::Text(answer->Ok_0.event.id),
    )) by {
        envelopes_tell_the_event();
    }
    sayings_are_written(before, after, log::always(payload), answer->Ok_0);
    assert(wrote(before, after, payload, answer->Ok_0.event));
}

/// A command that ends an attempt and goes through leaves that statement in the log, with
/// the outcome and the reason given, and answers with the event that it became.
pub proof fn ended_attempts_are_left_in_the_log<H: AppendHook>(
    before: ProjectLog<MemoryStore, H>,
    after: ProjectLog<MemoryStore, H>,
    args: AttemptEndArgs,
    outcome: Told,
)
    requires
        before.store@.len() < u64::MAX,
        commands::attempt_finished(before, after, args, outcome),
        outcome is Ok,
    ensures
        exists|event: EventView| #[trigger]
            wrote(
                before,
                after,
                EventPayloadView::Work(
                    WorkEventPayloadView::AttemptEnded {
                        attempt_id: args.attempt@,
                        outcome: args.outcome.meant(),
                        why: args.why@,
                    },
                ),
                event,
            ) && tells_of(outcome, event),
{
    let payload = EventPayloadView::Work(
        WorkEventPayloadView::AttemptEnded {
            attempt_id: args.attempt@,
            outcome: args.outcome.meant(),
            why: args.why@,
        },
    );
    let answer = choose|answer: commands::Answer| #[trigger]
        before.says(after, log::always(payload), answer) && answer is Ok && outcome is Ok
            && outcome->Ok_0.json.member("event_id"@) == Some(
            JsonView::Text(answer->Ok_0.event.id),
        );
    assert(before.says(after, log::always(payload), answer) && answer is Ok
        && outcome->Ok_0.json.member("event_id"@) == Some(
        JsonView::Text(answer->Ok_0.event.id),
    )) by {
        envelopes_tell_the_event();
    }
    sayings_are_written(before, after, log::always(payload), answer->Ok_0);
    assert(wrote(before, after, payload, answer->Ok_0.event));
}

/// Whether a statement is one edit of the item that changes its state and nothing else.
pub open spec fn only_changes_state(
    payload: EventPayloadView,
    work_id: Seq<char>,
    change: WorkStateChangeView,
) -> bool {
    &&& payload is Work && payload->Work_0 is WorkChanged
    &&& payload->Work_0->operations.len() == 1
    &&& payload->Work_0->operations[0] matches WorkOperationView::Edit {
        id,
        title,
        spec,
        priority,
        add_requires,
        remove_requires,
        add_checks,
        remove_checks,
        state_change,
    } && id == work_id && title is None && spec is None && priority is None && add_requires.len()
        == 0 && remove_requires.len() == 0 && add_checks.len() == 0 && remove_checks.len() == 0
        && state_change == Some(change)
}

/// A command that blocks or unblocks work and goes through leaves an edit of that item in the
/// log that changes its state and nothing else: to blocked, for the reason and until the time
/// that were given, or to open.
pub proof fn state_commands_leave_their_edit<H: AppendHook>(
    before: ProjectLog<MemoryStore, H>,
    after: ProjectLog<MemoryStore, H>,
    snapshot: SnapshotView,
    command: WorkCommand,
    document: Option<commands::DocumentTold>,
    outcome: Told,
)
    requires
        before.store@.len() < u64::MAX,
        commands::work_done(before, after, snapshot, command, document, outcome),
        outcome is Ok,
    ensures
        command matches WorkCommand::Unblock(args) ==> exists|
            payload: EventPayloadView,
            event: EventView,
        | #[trigger]
            wrote(before, after, payload, event) && only_changes_state(
                payload,
                args.work@,
                WorkStateChangeView::Unblock { reason: args.why@ },
            ) && !text::blank(args.why@),
        command matches WorkCommand::Block(args) ==> exists|
            payload: EventPayloadView,
            event: EventView,
        | #[trigger]
            wrote(before, after, payload, event) && commands::until_given(
                views::opt_view(args.until),
            ) is Ok && only_changes_state(
                payload,
                args.work@,
                WorkStateChangeView::Block {
                    reason: args.why@,
                    until: commands::until_given(views::opt_view(args.until))->Ok_0,
                },
            ) && !text::blank(args.why@),
{
    match command {
        WorkCommand::Unblock(args) => {
            let change = WorkStateChangeView::Unblock { reason: args.why@ };
            let plan = |s: SnapshotView| log::state_plan(s.state, args.work@, change);
            let answer = choose|answer: commands::Answer| #[trigger]
                before.says(after, plan, answer) && answer is Ok;
            assert(before.says(after, plan, answer) && answer is Ok);
            sayings_are_written(before, after, plan, answer->Ok_0);
            let payload = plan(sessions::standing(before)->Ok_0)->Ok_0;
            assert(wrote(before, after, payload, answer->Ok_0.event));
            assert(only_changes_state(payload, args.work@, change));
        },
        WorkCommand::Block(args) => {
            let until = commands::until_given(views::opt_view(args.until))->Ok_0;
            let change = WorkStateChangeView::Block { reason: args.why@, until };
            let plan = |s: SnapshotView| log::state_plan(s.state, args.work@, change);
            let answer = choose|answer: commands::Answer| #[trigger]
                before.says(after, plan, answer) && answer is Ok;
            assert(before.says(after, plan, answer) && answer is Ok);
            sayings_are_written(before, after, plan, answer->Ok_0);
            let payload = plan(sessions::standing(before)->Ok_0)->Ok_0;
            assert(wrote(before, after, payload, answer->Ok_0.event));
            assert(only_changes_state(payload, args.work@, change));
        },
        _ => {},
    }
}

/// Work is not reopened, blocked or unblocked without a reason, nor finished with flags that
/// do not go together: the command is refused, and the log is as it was.
pub proof fn senseless_commands_change_nothing<H: AppendHook>(
    before: ProjectLog<MemoryStore, H>,
    after: ProjectLog<MemoryStore, H>,
    snapshot: SnapshotView,
    command: WorkCommand,
    document: Option<commands::DocumentTold>,
    outcome: Told,
)
    requires
        commands::work_done(before, after, snapshot, command, document, outcome),
        command matches WorkCommand::Reopen(args) ==> text::blank(args.why@),
        command matches WorkCommand::Block(args) ==> text::blank(args.why@),
        command matches WorkCommand::Unblock(args) ==> text::blank(args.why@),
        command matches WorkCommand::Finish(args) ==> args.external && args.attempt is Some
            || !args.external && args.evidence is Some,
        command is Reopen || command is Block || command is Unblock || command is Finish,
    ensures
        outcome is Err,
        after == before,
{
}

proof fn new_sayings_are_written<H: AppendHook>(
    before: ProjectLog<MemoryStore, H>,
    after: ProjectLog<MemoryStore, H>,
    plan: spec_fn(SnapshotView) -> log::NamedPlan,
    result: AppendResultView,
    id: Seq<char>,
)
    requires
        before.store@.len() < u64::MAX,
        before.says_of_new(after, plan, Ok((result, id))),
    ensures
        sessions::standing(before) is Ok,
        plan(sessions::standing(before)->Ok_0) is Ok,
        plan(sessions::standing(before)->Ok_0)->Ok_0.1 == id,
        wrote(before, after, plan(sessions::standing(before)->Ok_0)->Ok_0.0, result.event),
{
    let outcome = Ok::<(AppendResultView, Seq<char>), ErrorView>((result, id));
    let snapshot = choose|snapshot: core::result::Result<SnapshotView, ErrorView>| #[trigger]
        before.snapshots(snapshot) && match snapshot {
            Err(error) => outcome == Err::<(AppendResultView, Seq<char>), ErrorView>(error)
                && after == before,
            Ok(s) => match plan(s) {
                Err(error) => outcome == Err::<(AppendResultView, Seq<char>), ErrorView>(error)
                    && after == before,
                Ok((payload, named)) => id == named && before.states(
                    after,
                    s,
                    payload,
                    Ok(result),
                ),
            },
        };
    sessions::snapshots_are_standing(before, snapshot);
    statements_are_written(before, after, snapshot->Ok_0, plan(snapshot->Ok_0)->Ok_0.0, result);
}

/// A command that starts an attempt or asks a question and goes through leaves it in the log,
/// about the work and with the tier, the metadata or the text that were given, and answers
/// with its ID.
pub proof fn new_objects_are_left_in_the_log<H: AppendHook>(
    before: ProjectLog<MemoryStore, H>,
    after: ProjectLog<MemoryStore, H>,
    snapshot: SnapshotView,
    command: WorkCommand,
    document: Option<commands::DocumentTold>,
    outcome: Told,
)
    requires
        before.store@.len() < u64::MAX,
        commands::work_done(before, after, snapshot, command, document, outcome),
        outcome is Ok,
    ensures
        command matches WorkCommand::Start(args) ==> exists|
            payload: EventPayloadView,
            event: EventView,
        | #[trigger]
            wrote(before, after, payload, event) && payload is Work
                && payload->Work_0 is AttemptStarted && payload->Work_0->attempt.work_id
                == args.work@ && payload->Work_0->attempt.tier == views::opt_view(args.tier)
                && input::metadata_given(views::views(args.meta@)) is Ok
                && payload->Work_0->attempt.metadata == input::metadata_given(
                views::views(args.meta@),
            )->Ok_0 && payload->Work_0->attempt.id == outcome->Ok_0.human,
        command matches WorkCommand::Ask(args) ==> exists|
            payload: EventPayloadView,
            event: EventView,
        | #[trigger]
            wrote(before, after, payload, event) && payload is Work
                && payload->Work_0 is QuestionAsked && payload->Work_0->question.work_id
                == args.work@ && payload->Work_0->question.text == args.question@
                && payload->Work_0->question.id == outcome->Ok_0.human,
{
    match command {
        WorkCommand::Start(args) => {
            let tier = views::opt_view(args.tier);
            let metadata = input::metadata_given(views::views(args.meta@))->Ok_0;
            let plan = |s: SnapshotView| log::start_plan(s.state, args.work@, tier, metadata);
            let answer = choose|answer: commands::NamedAnswer| #[trigger]
                before.says_of_new(after, plan, answer) && outcome == commands::answered_new(
                    answer,
                    "alder.work.start.v0"@,
                    commands::start_fields(args.work@, tier),
                );
            assert(before.says_of_new(after, plan, answer) && outcome == commands::answered_new(
                answer,
                "alder.work.start.v0"@,
                commands::start_fields(args.work@, tier),
            ));
            let (result, id) = answer->Ok_0;
            new_sayings_are_written(before, after, plan, result, id);
            let payload = plan(sessions::standing(before)->Ok_0)->Ok_0.0;
            assert(wrote(before, after, payload, result.event));
        },
        WorkCommand::Ask(args) => {
            let plan = |s: SnapshotView| log::ask_plan(s.state, args.work@, args.question@);
            let answer = choose|answer: commands::NamedAnswer| #[trigger]
                before.says_of_new(after, plan, answer) && outcome == commands::answered_new(
                    answer,
                    "alder.work.ask.v0"@,
                    commands::ask_fields(args.work@),
                );
            assert(before.says_of_new(after, plan, answer) && outcome == commands::answered_new(
                answer,
                "alder.work.ask.v0"@,
                commands::ask_fields(args.work@),
            ));
            let (result, id) = answer->Ok_0;
            new_sayings_are_written(before, after, plan, result, id);
            let payload = plan(sessions::standing(before)->Ok_0)->Ok_0.0;
            assert(wrote(before, after, payload, result.event));
        },
        _ => {},
    }
}

/// Whether a statement records what was given of an attempt's progress.
pub open spec fn records_progress(payload: EventPayloadView, args: AttemptEditArgs) -> bool {
    match payload {
        EventPayloadView::Work(
            WorkEventPayloadView::AttemptUpdated { attempt_id, tier, metadata, note, checks },
        ) => {
            &&& attempt_id == args.attempt@
            &&& tier == views::opt_view(args.tier)
            &&& metadata == input::metadata_given(views::views(args.meta@))->Ok_0
            &&& args.note is Some ==> note == Some(args.note->0@)
            &&& checks.len() == args.satisfied@.len() + args.failed@.len()
            &&& forall|i: int|
                0 <= i < args.satisfied@.len() ==> (#[trigger] checks[i]).key
                    == args.satisfied@[i]@ && checks[i].status is Satisfied
            &&& forall|i: int|
                0 <= i < args.failed@.len() ==> checks[args.satisfied@.len() + i].key == (
                #[trigger] args.failed@[i])@ && checks[args.satisfied@.len() + i].status is Failed
        },
        _ => false,
    }
}

/// A command that edits an attempt and goes through leaves one statement about that attempt in
/// the log: the handle it is bound to, where one was given, or else what was given of its tier,
/// its note, its metadata and the verdicts on its checks.
pub proof fn attempt_edits_are_left_in_the_log<H: AppendHook>(
    before: ProjectLog<MemoryStore, H>,
    after: ProjectLog<MemoryStore, H>,
    args: AttemptEditArgs,
    files: commands::AttemptFiles,
    outcome: Told,
)
    requires
        before.store@.len() < u64::MAX,
        commands::attempt_edited(before, after, args, files, outcome),
        outcome is Ok,
    ensures
        input::metadata_given(views::views(args.meta@)) is Ok,
        args.handle is Some ==> exists|event: EventView| #[trigger]
            wrote(
                before,
                after,
                EventPayloadView::Work(
                    WorkEventPayloadView::AttemptBound {
                        attempt_id: args.attempt@,
                        handle: args.handle->0@,
                        metadata: input::metadata_given(views::views(args.meta@))->Ok_0,
                    },
                ),
                event,
            ),
        args.handle is None ==> exists|payload: EventPayloadView, event: EventView| #[trigger]
            wrote(before, after, payload, event) && records_progress(payload, args),
{
    let metadata = input::metadata_given(views::views(args.meta@))->Ok_0;
    if args.handle is Some {
        let payload = EventPayloadView::Work(
            WorkEventPayloadView::AttemptBound {
                attempt_id: args.attempt@,
                handle: args.handle->0@,
                metadata,
            },
        );
        let answer = choose|answer: commands::Answer| #[trigger]
            before.says(after, log::always(payload), answer) && answer is Ok;
        assert(before.says(after, log::always(payload), answer) && answer is Ok);
        sayings_are_written(before, after, log::always(payload), answer->Ok_0);
        assert(wrote(before, after, payload, answer->Ok_0.event));
    } else {
        let checks = input::verdicts_given(
            views::views(args.satisfied@),
            views::views(args.failed@),
            views::opt_view(args.evidence),
            commands::file_of(files.evidence),
        )->Ok_0;
        let note = input::text_given(
            views::opt_view(args.note),
            commands::file_of(files.note),
            "--note-file"@,
        )->Ok_0;
        let payload = EventPayloadView::Work(
            WorkEventPayloadView::AttemptUpdated {
                attempt_id: args.attempt@,
                tier: views::opt_view(args.tier),
                metadata,
                note,
                checks,
            },
        );
        let answer = choose|answer: commands::Answer| #[trigger]
            before.says(after, log::always(payload), answer) && answer is Ok;
        assert(before.says(after, log::always(payload), answer) && answer is Ok);
        sayings_are_written(before, after, log::always(payload), answer->Ok_0);
        assert(wrote(before, after, payload, answer->Ok_0.event));
    }
}

} // verus!

//! The commands: what they say to the log, and what they answer.

use vstd::prelude::*;

use crate::attempt::AttemptOutcome;
use crate::catalog::Replica;
use crate::change;
use crate::change::{
    ChangeMode, EditWorkInput, EditWorkInputView, GraphChangeDocument, GraphChangeDocumentView,
};
use crate::cli::{
    AttemptCommand, AttemptEditArgs, AttemptEndArgs, LoopCommand, NonSuccessOutcome,
    ObservationCommand, QuestionCommand, WorkAddArgs, WorkCommand, WorkEditArgs,
};
use crate::documents;
use crate::documents::{mutation_document, object_and_history, stranded_note, Output, OutputView};
use crate::error;
use crate::error::{AlderError, ErrorView, Result};
use crate::event::{EventPayloadView, EventView, Event, LoopEventPayloadView, WorkEventPayloadView};
use crate::input;
use crate::input::{
    ensure_no_direct_work_fields, handle_edit_has_progress_fields, has_actual_edit_fields,
    has_single_edit_fields, parse_check_results, parse_checks, parse_instant, parse_metadata,
    read_text_file, require_reason, FileText,
};
use crate::instant;
use crate::instant::Instant;
use crate::json;
use crate::json::{Json, JsonView};
use crate::log;
use crate::log::{
    AppendHook, ObservationAppend, ObservationAppendView, ProjectLog, Snapshot, SnapshotView,
};
use crate::observation::{Observation, ObservationKey, ObservationKeyView, ObservationView};
use crate::rules;
use crate::selection;
use crate::selection::{lines_of, values_of, Tell};
use crate::store;
use crate::store::{AppendResult, AppendResultView, Store};
use crate::text;
use crate::text::{
    decimal_text, is_blank, join_texts, joined, joined3, joined5, pad_text,
};
use crate::views;
use crate::views::{opt_replica, replicas};
use crate::wire;
use crate::wire::list_to_json;
use crate::work::{NullableString, WorkDefinitionView, WorkStateChange, WorkStateChangeView};

verus! {

/// What the log answers to a statement.
pub type Answer = core::result::Result<AppendResultView, ErrorView>;

/// What the log answers to a statement about something new, with its ID.
pub type NamedAnswer = core::result::Result<(AppendResultView, Seq<char>), ErrorView>;

/// What a command answers.
pub type Told = core::result::Result<OutputView, ErrorView>;

pub open spec fn appended(
    schema: Seq<char>,
    result: AppendResultView,
    fields: JsonView,
    human: Seq<char>,
) -> OutputView {
    documents::shown(
        documents::mutation(result.head, schema, result.event.id, fields),
        human,
    )
}

fn mutation_output(schema: &str, result: &AppendResult, fields: Json, human: String) -> (output:
    Output)
    ensures
        output@ == appended(schema@, result@, fields@, human@),
{
    Output::new(
        mutation_document(&result.head, schema, result.event.id.as_str(), &fields),
        human,
    )
}

pub open spec fn answered(
    answer: Answer,
    schema: Seq<char>,
    fields: JsonView,
    human: Seq<char>,
) -> Told {
    match answer {
        Err(error) => Err(error),
        Ok(result) => Ok(appended(schema, result, fields, human)),
    }
}

fn answer_of(answer: Result<AppendResult>, schema: &str, fields: Json, human: String) -> (outcome:
    Result<Output>)
    ensures
        store::told(outcome) == answered(store::told(answer), schema@, fields@, human@),
{
    match answer {
        Err(error) => Err(error),
        Ok(result) => Ok(mutation_output(schema, &result, fields, human)),
    }
}

pub open spec fn answered_new(
    answer: NamedAnswer,
    schema: Seq<char>,
    fields: spec_fn(Seq<char>) -> JsonView,
) -> Told {
    match answer {
        Err(error) => Err(error),
        Ok((result, id)) => Ok(appended(schema, result, fields(id), id)),
    }
}

/// The command is refused, and the log stays as it is.
pub open spec fn refused<S, H>(
    log: ProjectLog<S, H>,
    after: ProjectLog<S, H>,
    error: ErrorView,
    outcome: Told,
) -> bool {
    after == log && outcome == Err::<OutputView, ErrorView>(error)
}

/// The command states one thing, and answers with what became of it.
pub open spec fn stated<S: Store, H: AppendHook>(
    log: ProjectLog<S, H>,
    after: ProjectLog<S, H>,
    plan: spec_fn(SnapshotView) -> log::Plan,
    schema: Seq<char>,
    fields: JsonView,
    human: Seq<char>,
    outcome: Told,
) -> bool {
    exists|answer: Answer| #[trigger]
        log.says(after, plan, answer) && outcome == answered(answer, schema, fields, human)
}

/// The command states something new, and answers with its ID.
pub open spec fn stated_new<S: Store, H: AppendHook>(
    log: ProjectLog<S, H>,
    after: ProjectLog<S, H>,
    plan: spec_fn(SnapshotView) -> log::NamedPlan,
    schema: Seq<char>,
    fields: spec_fn(Seq<char>) -> JsonView,
    outcome: Told,
) -> bool {
    exists|answer: NamedAnswer| #[trigger]
        log.says_of_new(after, plan, answer) && outcome == answered_new(answer, schema, fields)
}

// ---- the loop ----

pub open spec fn loop_done<S: Store, H: AppendHook>(
    log: ProjectLog<S, H>,
    after: ProjectLog<S, H>,
    command: LoopCommand,
    outcome: Told,
) -> bool {
    match command {
        LoopCommand::Pause(args) => stated(
            log,
            after,
            log::always(
                EventPayloadView::Loop(
                    LoopEventPayloadView::LoopPaused { why: views::opt_view(args.why) },
                ),
            ),
            "alder.loop.pause.v0"@,
            json::empty_object().with("paused"@, JsonView::Bool(true)).with(
                "why"@,
                json::text_or_null(views::opt_view(args.why)),
            ),
            "loop paused"@,
            outcome,
        ),
        LoopCommand::Resume => stated(
            log,
            after,
            log::always(EventPayloadView::Loop(LoopEventPayloadView::LoopResumed {  })),
            "alder.loop.resume.v0"@,
            json::empty_object().with("paused"@, JsonView::Bool(false)),
            "loop resumed"@,
            outcome,
        ),
        LoopCommand::Use(args) => stated(
            log,
            after,
            log::always(
                EventPayloadView::Loop(
                    LoopEventPayloadView::LoopEngineSelected { engine: args.engine@ },
                ),
            ),
            "alder.loop.use.v0"@,
            json::empty_object().with("engine"@, JsonView::Text(args.engine@)),
            "loop engine "@ + args.engine@,
            outcome,
        ),
        LoopCommand::Rotate(args) => stated(
            log,
            after,
            log::always(
                EventPayloadView::Loop(
                    LoopEventPayloadView::LoopRotationRequested { why: views::opt_view(args.why) },
                ),
            ),
            "alder.loop.rotate.v0"@,
            json::empty_object().with("rotate_pending"@, JsonView::Bool(true)).with(
                "why"@,
                json::text_or_null(views::opt_view(args.why)),
            ),
            "rotation requested"@,
            outcome,
        ),
        LoopCommand::Nudge(args) => stated(
            log,
            after,
            log::always(
                EventPayloadView::Loop(
                    LoopEventPayloadView::LoopNudgeRequested { why: views::opt_view(args.why) },
                ),
            ),
            "alder.loop.nudge.v0"@,
            json::empty_object().with("nudge_pending"@, JsonView::Bool(true)).with(
                "why"@,
                json::text_or_null(views::opt_view(args.why)),
            ),
            "nudge requested"@,
            outcome,
        ),
    }
}

pub fn loop_command<S: Store, H: AppendHook>(log: &mut ProjectLog<S, H>, command: &LoopCommand) -> (outcome:
    Result<Output>)
    ensures
        loop_done(*old(log), *final(log), *command, store::told(outcome)),
{
    match command {
        LoopCommand::Pause(args) => {
            let answer = log.pause_loop(opt_replica(&args.why));
            answer_of(
                answer,
                "alder.loop.pause.v0",
                Json::object().with("paused", Json::Bool(true)).with(
                    "why",
                    Json::optional_text(&args.why),
                ),
                "loop paused".to_owned(),
            )
        },
        LoopCommand::Resume => {
            let answer = log.resume_loop();
            answer_of(
                answer,
                "alder.loop.resume.v0",
                Json::object().with("paused", Json::Bool(false)),
                "loop resumed".to_owned(),
            )
        },
        LoopCommand::Use(args) => {
            let answer = log.select_engine(args.engine.clone());
            answer_of(
                answer,
                "alder.loop.use.v0",
                Json::object().with("engine", Json::text(args.engine.as_str())),
                joined("loop engine ", args.engine.as_str()),
            )
        },
        LoopCommand::Rotate(args) => {
            let answer = log.request_rotation(opt_replica(&args.why));
            answer_of(
                answer,
                "alder.loop.rotate.v0",
                Json::object().with("rotate_pending", Json::Bool(true)).with(
                    "why",
                    Json::optional_text(&args.why),
                ),
                "rotation requested".to_owned(),
            )
        },
        LoopCommand::Nudge(args) => {
            let answer = log.request_nudge(opt_replica(&args.why));
            answer_of(
                answer,
                "alder.loop.nudge.v0",
                Json::object().with("nudge_pending", Json::Bool(true)).with(
                    "why",
                    Json::optional_text(&args.why),
                ),
                "nudge requested".to_owned(),
            )
        },
    }
}

// ---- graph changes ----

/// A change is made of a document, and answered with what became of it.
pub open spec fn committed<S: Store, H: AppendHook>(
    log: ProjectLog<S, H>,
    after: ProjectLog<S, H>,
    snapshot: SnapshotView,
    document: GraphChangeDocumentView,
    mode: ChangeMode,
    schema: Seq<char>,
    fields: spec_fn(Seq<change::Mapping>) -> JsonView,
    human: spec_fn(Seq<change::Mapping>) -> Seq<char>,
    outcome: Told,
) -> bool {
    exists|prepared: core::result::Result<change::PreparedChangeView, ErrorView>| #[trigger]
        log::allocation(log.prefix@, snapshot, document, mode, prepared) && match prepared {
            Err(error) => refused(log, after, error, outcome),
            Ok(made) => exists|answer: Answer| #[trigger]
                log.states(
                    after,
                    snapshot,
                    EventPayloadView::Work(
                        WorkEventPayloadView::WorkChanged {
                            why: document.why,
                            operations: made.operations,
                        },
                    ),
                    answer,
                ) && outcome == answered(
                    answer,
                    schema,
                    fields(made.mappings),
                    human(made.mappings),
                ),
        }
}

/// A local name and the ID it was given.
pub open spec fn mapping_json(mapping: change::Mapping) -> JsonView {
    json::empty_object().with("local"@, JsonView::Text(mapping.0)).with(
        "work_id"@,
        JsonView::Text(mapping.1),
    )
}

pub open spec fn mappings_json(mappings: Seq<change::Mapping>) -> JsonView {
    JsonView::List(mappings.map_values(|m: change::Mapping| mapping_json(m)))
}

fn mappings_document(mappings: &Vec<(String, String)>) -> (document: Json)
    ensures
        document@ == mappings_json(change::mapping_views(mappings@)),
{
    let ghost told = change::mapping_views(mappings@).map_values(
        |m: change::Mapping| mapping_json(m),
    );
    let mut items: Vec<Json> = Vec::new();
    let mut index: usize = 0;
    while index < mappings.len()
        invariant
            index <= mappings@.len(),
            items@.len() == index,
            told == change::mapping_views(mappings@).map_values(
                |m: change::Mapping| mapping_json(m),
            ),
            forall|i: int| 0 <= i < index ==> (#[trigger] items@[i])@ == told[i],
        decreases mappings@.len() - index,
    {
        items.push(
            Json::object().with("local", Json::text(mappings[index].0.as_str())).with(
                "work_id",
                Json::text(mappings[index].1.as_str()),
            ),
        );
        index += 1;
    }
    let document = Json::List(items);
    proof {
        assert(change::mapping_views(mappings@).len() == mappings@.len());
        assert forall|i: int| 0 <= i < told.len() implies document@->List_0[i] == told[i] by {
            assert(items@[i]@ == told[i]);
        }
        assert(document@->List_0 =~= told);
    }
    document
}

/// A line for each mapping, in two columns, with a word behind it.
pub open spec fn mapping_lines(mappings: Seq<change::Mapping>, word: Seq<char>) -> Seq<Seq<char>> {
    mappings.map_values(|m: change::Mapping| text::padded(m.0, 20) + " "@ + m.1 + word)
}

fn mappings_told(mappings: &Vec<(String, String)>, word: &str) -> (lines: Vec<String>)
    ensures
        views::views(lines@) == mapping_lines(change::mapping_views(mappings@), word@),
{
    let mut lines: Vec<String> = Vec::new();
    let mut index: usize = 0;
    while index < mappings.len()
        invariant
            index <= mappings@.len(),
            lines@.len() == index,
            forall|i: int|
                0 <= i < index ==> (#[trigger] lines@[i])@ == text::padded(mappings@[i].0@, 20)
                    + " "@ + mappings@[i].1@ + word@,
        decreases mappings@.len() - index,
    {
        lines.push(
            joined3(
                pad_text(mappings[index].0.as_str(), 20).as_str(),
                " ",
                mappings[index].1.as_str(),
            ).concat(word),
        );
        index += 1;
    }
    assert(views::views(lines@) =~= mapping_lines(change::mapping_views(mappings@), word@));
    lines
}

pub open spec fn added_fields() -> spec_fn(Seq<change::Mapping>) -> JsonView {
    |m: Seq<change::Mapping>| json::empty_object().with("work"@, mappings_json(m))
}

pub open spec fn added_human() -> spec_fn(Seq<change::Mapping>) -> Seq<char> {
    |m: Seq<change::Mapping>| text::together(mapping_lines(m, Seq::empty()), "\n"@)
}

pub open spec fn edited_ids(edits: Seq<EditWorkInputView>) -> Seq<Seq<char>> {
    edits.map_values(|e: EditWorkInputView| e.id)
}

pub open spec fn edited_fields(edited: Seq<Seq<char>>) -> spec_fn(
    Seq<change::Mapping>,
) -> JsonView {
    |m: Seq<change::Mapping>|
        json::empty_object().with("added"@, mappings_json(m)).with(
            "edited"@,
            json::text_list(edited),
        )
}

pub open spec fn edited_lines(edited: Seq<Seq<char>>) -> Seq<Seq<char>> {
    edited.map_values(|id: Seq<char>| text::padded(id, 20) + " edited"@)
}

pub open spec fn edited_human(edited: Seq<Seq<char>>) -> spec_fn(Seq<change::Mapping>) -> Seq<
    char,
> {
    |m: Seq<change::Mapping>|
        text::together(mapping_lines(m, "  added"@) + edited_lines(edited), "\n"@)
}

pub open spec fn one_edited_human(id: Seq<char>) -> spec_fn(Seq<change::Mapping>) -> Seq<char> {
    |m: Seq<change::Mapping>| id + "  edited"@
}

pub open spec fn one_edited_fields(id: Seq<char>) -> spec_fn(Seq<change::Mapping>) -> JsonView {
    |m: Seq<change::Mapping>|
        json::empty_object().with("added"@, JsonView::List(Seq::empty())).with(
            "edited"@,
            json::text_list(seq![id]),
        )
}

/// What came of reading a change document.
pub type DocumentTold = core::result::Result<GraphChangeDocumentView, ErrorView>;

/// What came of reading the document, where one is named.
pub open spec fn document_told(document: Option<Result<GraphChangeDocument>>) -> Option<
    DocumentTold,
> {
    match document {
        Some(read) => Some(store::told(read)),
        None => None,
    }
}

/// Adding work: a document's worth, or one item that the arguments describe. Fields
/// beside a document are refused before the document is looked at.
pub open spec fn work_added<S: Store, H: AppendHook>(
    log: ProjectLog<S, H>,
    after: ProjectLog<S, H>,
    snapshot: SnapshotView,
    args: WorkAddArgs,
    document: Option<DocumentTold>,
    outcome: Told,
) -> bool {
    match document {
        Some(read) => if input::direct_fields(args) {
            refused(
                log,
                after,
                error::validation_error("--from cannot be combined with direct work fields"@),
                outcome,
            )
        } else {
            match read {
                Err(error) => refused(log, after, error, outcome),
                Ok(change) => committed(
                    log,
                    after,
                    snapshot,
                    change,
                    ChangeMode::AddOnly,
                    "alder.work.add.v0"@,
                    added_fields(),
                    added_human(),
                    outcome,
                ),
            }
        },
        None => match input::checks_given(views::views(args.check@)) {
            Err(error) => refused(log, after, error, outcome),
            Ok(checks) => match args.title {
                None => refused(
                    log,
                    after,
                    error::validation_error("work add requires --title"@),
                    outcome,
                ),
                Some(title) => exists|answer: NamedAnswer| #[trigger]
                    log.adds(
                        after,
                        WorkDefinitionView {
                            id: Seq::empty(),
                            title: title@,
                            spec: views::opt_view(args.spec),
                            priority: args.priority,
                            requires: views::views(args.requires@),
                            checks,
                        },
                        answer,
                    ) && outcome == answered_new(
                        answer,
                        "alder.work.add.v0"@,
                        |id: Seq<char>| json::empty_object().with("work_id"@, JsonView::Text(id)),
                    ),
            },
        },
    }
}

pub fn work_add<S: Store, H: AppendHook>(
    log: &mut ProjectLog<S, H>,
    snapshot: &Snapshot,
    args: &WorkAddArgs,
    document: Option<Result<GraphChangeDocument>>,
) -> (outcome: Result<Output>)
    ensures
        work_added(
            *old(log),
            *final(log),
            snapshot@,
            *args,
            document_told(document),
            store::told(outcome),
        ),
{
    let ghost before = *log;
    if let Some(read) = document {
        if let Err(error) = ensure_no_direct_work_fields(args) {
            return Err(error);
        }
        let change = match read {
            Err(error) => {
                return Err(error);
            },
            Ok(change) => change,
        };
        let allocation = log.allocate_change(snapshot, &change, ChangeMode::AddOnly);
        let ghost allocated = store::told(allocation);
        assert(log::allocation(before.prefix@, snapshot@, change@, ChangeMode::AddOnly, allocated));
        let prepared = match allocation {
            Err(error) => {
                return Err(error);
            },
            Ok(prepared) => prepared,
        };
        let fields = Json::object().with("work", mappings_document(&prepared.mappings));
        let nothing = String::new();
        let lines = mappings_told(&prepared.mappings, nothing.as_str());
        let human = join_texts(&lines, "\n");
        assert(fields@ == added_fields()(prepared@.mappings));
        assert(human@ == added_human()(prepared@.mappings));
        let answer = log.commit_change(snapshot, &change, prepared);
        return answer_of(answer, "alder.work.add.v0", fields, human);
    }
    let checks = match parse_checks(args.check.as_slice()) {
        Err(error) => {
            return Err(error);
        },
        Ok(checks) => checks,
    };
    let title = match &args.title {
        None => {
            return Err(AlderError::validation("work add requires --title".to_owned()));
        },
        Some(title) => title.clone(),
    };
    let answer = log.add_work(
        title,
        opt_replica(&args.spec),
        args.priority,
        replicas(&args.requires),
        checks,
    );
    let ghost told = log::told_new(answer);
    match answer {
        Err(error) => Err(error),
        Ok((result, id)) => {
            let fields = Json::object().with("work_id", Json::text(id.as_str()));
            Ok(mutation_output("alder.work.add.v0", &result, fields, id))
        },
    }
}

/// The edit that the arguments describe.
pub open spec fn single_edit(
    args: WorkEditArgs,
    id: Seq<char>,
    checks: Seq<crate::work::CheckDefinitionView>,
) -> EditWorkInputView {
    EditWorkInputView {
        id,
        title: views::opt_view(args.title),
        spec: if args.clear_spec {
            Some(None)
        } else {
            match args.spec {
                Some(text) => Some(Some(text@)),
                None => None,
            }
        },
        priority: args.priority,
        add_requires: views::views(args.add_requires@),
        remove_requires: views::views(args.remove_requires@),
        add_checks: checks,
        remove_checks: views::views(args.remove_check@),
        block: false,
        unblock: false,
    }
}

/// What is wrong with the arguments of an edit of one item.
pub open spec fn single_edit_error(args: WorkEditArgs) -> Option<ErrorView> {
    if args.work is None {
        Some(error::validation_error("work edit requires a work ID or --from"@))
    } else if !input::edit_fields(args) {
        Some(error::validation_error("work edit requires at least one field change"@))
    } else if args.spec is Some && args.clear_spec {
        Some(error::validation_error("--spec and --clear-spec cannot be combined"@))
    } else if args.why is None || text::blank(args.why->0@) {
        Some(error::validation_error("work edit requires --why"@))
    } else {
        match input::checks_given(views::views(args.add_check@)) {
            Err(error) => Some(error),
            Ok(_) => None,
        }
    }
}

pub open spec fn work_edited<S: Store, H: AppendHook>(
    log: ProjectLog<S, H>,
    after: ProjectLog<S, H>,
    snapshot: SnapshotView,
    args: WorkEditArgs,
    document: Option<DocumentTold>,
    outcome: Told,
) -> bool {
    match document {
        Some(read) => if args.work is Some || input::edit_fields(args) || args.why is Some {
            refused(
                log,
                after,
                error::validation_error(
                    "--from cannot be combined with a work ID or direct edit fields"@,
                ),
                outcome,
            )
        } else {
            match read {
                Err(error) => refused(log, after, error, outcome),
                Ok(change) => committed(
                    log,
                    after,
                    snapshot,
                    change,
                    ChangeMode::Edit,
                    "alder.work.edit.v0"@,
                    edited_fields(edited_ids(change.edit)),
                    edited_human(edited_ids(change.edit)),
                    outcome,
                ),
            }
        },
        None => match single_edit_error(args) {
            Some(error) => refused(log, after, error, outcome),
            None => committed(
                log,
                after,
                snapshot,
                GraphChangeDocumentView {
                    why: Some(args.why->0@),
                    add: Seq::empty(),
                    edit: seq![
                        single_edit(
                            args,
                            args.work->0@,
                            input::checks_given(views::views(args.add_check@))->Ok_0,
                        ),
                    ],
                },
                ChangeMode::Edit,
                "alder.edit.work.v0"@,
                one_edited_fields(args.work->0@),
                one_edited_human(args.work->0@),
                outcome,
            ),
        },
    }
}

fn ids_edited(edits: &Vec<EditWorkInput>) -> (ids: Vec<String>)
    ensures
        views::views(ids@) == edited_ids(views::views(edits@)),
{
    let mut ids: Vec<String> = Vec::new();
    let mut index: usize = 0;
    while index < edits.len()
        invariant
            index <= edits@.len(),
            ids@.len() == index,
            forall|i: int| 0 <= i < index ==> (#[trigger] ids@[i])@ == edits@[i]@.id,
        decreases edits@.len() - index,
    {
        ids.push(edits[index].id.clone());
        index += 1;
    }
    assert(views::views(ids@) =~= edited_ids(views::views(edits@)));
    ids
}

fn edits_told(edited: &Vec<String>) -> (lines: Vec<String>)
    ensures
        views::views(lines@) == edited_lines(views::views(edited@)),
{
    let mut lines: Vec<String> = Vec::new();
    let mut index: usize = 0;
    while index < edited.len()
        invariant
            index <= edited@.len(),
            lines@.len() == index,
            forall|i: int|
                0 <= i < index ==> (#[trigger] lines@[i])@ == text::padded(edited@[i]@, 20)
                    + " edited"@,
        decreases edited@.len() - index,
    {
        lines.push(joined(pad_text(edited[index].as_str(), 20).as_str(), " edited"));
        index += 1;
    }
    assert(views::views(lines@) =~= edited_lines(views::views(edited@)));
    lines
}

fn is_reason(why: &Option<String>) -> (is: bool)
    ensures
        is == (why is Some && !text::blank(why->0@)),
{
    match why {
        Some(text) => !is_blank(text.as_str()),
        None => false,
    }
}

pub fn work_edit<S: Store, H: AppendHook>(
    log: &mut ProjectLog<S, H>,
    snapshot: &Snapshot,
    args: &WorkEditArgs,
    document: Option<Result<GraphChangeDocument>>,
) -> (outcome: Result<Output>)
    ensures
        work_edited(
            *old(log),
            *final(log),
            snapshot@,
            *args,
            document_told(document),
            store::told(outcome),
        ),
{
    let ghost before = *log;
    if let Some(read) = document {
        if args.work.is_some() || has_single_edit_fields(args) {
            return Err(
                AlderError::validation(
                    "--from cannot be combined with a work ID or direct edit fields".to_owned(),
                ),
            );
        }
        let change = match read {
            Err(error) => {
                return Err(error);
            },
            Ok(change) => change,
        };
        let allocation = log.allocate_change(snapshot, &change, ChangeMode::Edit);
        let ghost allocated = store::told(allocation);
        assert(log::allocation(before.prefix@, snapshot@, change@, ChangeMode::Edit, allocated));
        let prepared = match allocation {
            Err(error) => {
                return Err(error);
            },
            Ok(prepared) => prepared,
        };
        let edited = ids_edited(&change.edit);
        let fields = Json::object().with("added", mappings_document(&prepared.mappings)).with(
            "edited",
            Json::texts(&edited),
        );
        let mut lines = mappings_told(&prepared.mappings, "  added");
        let ghost first = views::views(lines@);
        let mut more = edits_told(&edited);
        let ghost second = views::views(more@);
        lines.append(&mut more);
        assert(views::views(lines@) =~= first + second);
        let human = join_texts(&lines, "\n");
        assert(fields@ == edited_fields(views::views(edited@))(prepared@.mappings));
        assert(human@ == edited_human(views::views(edited@))(prepared@.mappings));
        let answer = log.commit_change(snapshot, &change, prepared);
        return answer_of(answer, "alder.work.edit.v0", fields, human);
    }
    let id = match &args.work {
        None => {
            return Err(
                AlderError::validation("work edit requires a work ID or --from".to_owned()),
            );
        },
        Some(id) => id.clone(),
    };
    if !has_actual_edit_fields(args) {
        return Err(
            AlderError::validation("work edit requires at least one field change".to_owned()),
        );
    }
    if args.spec.is_some() && args.clear_spec {
        return Err(
            AlderError::validation("--spec and --clear-spec cannot be combined".to_owned()),
        );
    }
    if !is_reason(&args.why) {
        return Err(AlderError::validation("work edit requires --why".to_owned()));
    }
    let spec_change = if args.clear_spec {
        Some(NullableString(None))
    } else {
        match &args.spec {
            Some(text) => Some(NullableString(Some(text.clone()))),
            None => None,
        }
    };
    let checks = match parse_checks(args.add_check.as_slice()) {
        Err(error) => {
            return Err(error);
        },
        Ok(checks) => checks,
    };
    let edit = EditWorkInput {
        id: id.clone(),
        title: opt_replica(&args.title),
        spec: spec_change,
        priority: args.priority,
        add_requires: replicas(&args.add_requires),
        remove_requires: replicas(&args.remove_requires),
        add_checks: checks,
        remove_checks: replicas(&args.remove_check),
        block: false,
        unblock: false,
    };
    let ghost edit_told = edit@;
    let mut edits: Vec<EditWorkInput> = Vec::new();
    edits.push(edit);
    let change = GraphChangeDocument { why: opt_replica(&args.why), add: Vec::new(), edit: edits };
    proof {
        assert(change@.add =~= Seq::empty());
        assert(change@.edit =~= seq![edit_told]);
        assert(edit_told =~= single_edit(
            *args,
            id@,
            input::checks_given(views::views(args.add_check@))->Ok_0,
        ));
    }
    let allocation = log.allocate_change(snapshot, &change, ChangeMode::Edit);
    let ghost allocated = store::told(allocation);
    assert(log::allocation(before.prefix@, snapshot@, change@, ChangeMode::Edit, allocated));
    let prepared = match allocation {
        Err(error) => {
            return Err(error);
        },
        Ok(prepared) => prepared,
    };
    let ghost mappings = prepared@.mappings;
    let mut one: Vec<String> = Vec::new();
    one.push(id.clone());
    assert(views::views(one@) =~= seq![id@]);
    let none = Json::List(Vec::new());
    assert(none@->List_0 =~= Seq::<JsonView>::empty());
    let fields = Json::object().with("added", none).with("edited", Json::texts(&one));
    let human = joined(id.as_str(), "  edited");
    assert(fields@ == one_edited_fields(id@)(mappings));
    assert(human@ == one_edited_human(id@)(mappings));
    let answer = log.commit_change(snapshot, &change, prepared);
    answer_of(answer, "alder.edit.work.v0", fields, human)
}

// ---- work ----

/// The word for an outcome in answers.
pub open spec fn outcome_word(outcome: AttemptOutcome) -> Seq<char> {
    match outcome {
        AttemptOutcome::Succeeded => "succeeded"@,
        AttemptOutcome::Failed => "failed"@,
        AttemptOutcome::Cancelled => "cancelled"@,
        AttemptOutcome::Lost => "lost"@,
        AttemptOutcome::NotStarted => "not-started"@,
    }
}

pub fn format_outcome(outcome: AttemptOutcome) -> (word: &'static str)
    ensures
        word@ == outcome_word(outcome),
{
    match outcome {
        AttemptOutcome::Succeeded => "succeeded",
        AttemptOutcome::Failed => "failed",
        AttemptOutcome::Cancelled => "cancelled",
        AttemptOutcome::Lost => "lost",
        AttemptOutcome::NotStarted => "not-started",
    }
}

pub open spec fn meant(outcome: Option<NonSuccessOutcome>) -> Option<AttemptOutcome> {
    match outcome {
        Some(given) => Some(given.meant()),
        None => None,
    }
}

pub open spec fn word_or_null(outcome: Option<AttemptOutcome>) -> JsonView {
    match outcome {
        Some(given) => JsonView::Text(outcome_word(given)),
        None => JsonView::Null,
    }
}

/// When a block is to be reviewed, or what is wrong with the text for it.
pub open spec fn until_given(until: Option<Seq<char>>) -> core::result::Result<
    Option<Instant>,
    ErrorView,
> {
    match until {
        None => Ok(None),
        Some(value) => match input::instant_given(
            value,
            instant::instant_reading(text::trimmed(value)),
        ) {
            Err(error) => Err(error),
            Ok(at) => Ok(Some(at)),
        },
    }
}

fn parse_until(until: &Option<String>) -> (outcome: Result<Option<Instant>>)
    ensures
        match until_given(views::opt_view(*until)) {
            Ok(at) => outcome matches Ok(a) && a == at,
            Err(error) => outcome matches Err(e) && e@ == error,
        },
{
    match until {
        None => Ok(None),
        Some(value) => match parse_instant(value.as_str()) {
            Err(error) => Err(error),
            Ok(at) => Ok(Some(at)),
        },
    }
}

pub open spec fn shown_or_null(at: Option<Instant>) -> JsonView {
    match at {
        Some(moment) => JsonView::Text(moment.shown()),
        None => JsonView::Null,
    }
}

pub open spec fn start_fields(work: Seq<char>, tier: Option<Seq<char>>) -> spec_fn(
    Seq<char>,
) -> JsonView {
    |id: Seq<char>|
        json::empty_object().with("attempt_id"@, JsonView::Text(id)).with(
            "tier"@,
            json::text_or_null(tier),
        ).with("work_id"@, JsonView::Text(work))
}

pub open spec fn ask_fields(work: Seq<char>) -> spec_fn(Seq<char>) -> JsonView {
    |id: Seq<char>|
        json::empty_object().with("question_id"@, JsonView::Text(id)).with(
            "work_id"@,
            JsonView::Text(work),
        )
}

/// The work that is affected by a drop, as a message puts it.
pub open spec fn affected_note(downstream: Seq<Seq<char>>) -> Seq<char> {
    if downstream.len() == 0 {
        Seq::empty()
    } else {
        " · affects "@ + text::together(downstream, ", "@)
    }
}

/// What is wrong with the flags of a finish.
pub open spec fn finish_flags_error(external: bool, attempt: bool, evidence: bool) -> Option<
    ErrorView,
> {
    if external && attempt {
        Some(error::validation_error("--external cannot be combined with --attempt"@))
    } else if !external && evidence {
        Some(error::validation_error("--evidence is accepted only with --external"@))
    } else {
        None
    }
}

pub open spec fn work_done<S: Store, H: AppendHook>(
    log: ProjectLog<S, H>,
    after: ProjectLog<S, H>,
    snapshot: SnapshotView,
    command: WorkCommand,
    document: Option<DocumentTold>,
    outcome: Told,
) -> bool {
    match command {
        WorkCommand::Add(args) => work_added(log, after, snapshot, args, document, outcome),
        WorkCommand::Edit(args) => work_edited(log, after, snapshot, args, document, outcome),
        WorkCommand::Start(args) => match input::metadata_given(views::views(args.meta@)) {
            Err(error) => refused(log, after, error, outcome),
            Ok(metadata) => stated_new(
                log,
                after,
                |s: SnapshotView|
                    log::start_plan(s.state, args.work@, views::opt_view(args.tier), metadata),
                "alder.work.start.v0"@,
                start_fields(args.work@, views::opt_view(args.tier)),
                outcome,
            ),
        },
        WorkCommand::Finish(args) => match finish_flags_error(
            args.external,
            args.attempt is Some,
            args.evidence is Some,
        ) {
            Some(error) => refused(log, after, error, outcome),
            None => stated(
                log,
                after,
                log::always(
                    EventPayloadView::Work(
                        WorkEventPayloadView::WorkFinished {
                            work_id: args.work@,
                            attempt_id: views::opt_view(args.attempt),
                            external: args.external,
                            evidence: views::opt_view(args.evidence),
                        },
                    ),
                ),
                "alder.work.finish.v0"@,
                json::empty_object().with(
                    "attempt_id"@,
                    json::text_or_null(views::opt_view(args.attempt)),
                ).with("external"@, JsonView::Bool(args.external)).with(
                    "stranded_questions"@,
                    json::text_list(rules::unanswered_ids(snapshot.state, args.work@)),
                ).with("work_id"@, JsonView::Text(args.work@)),
                args.work@ + "  done"@ + documents::stranding_note(
                    rules::unanswered_ids(snapshot.state, args.work@),
                ),
                outcome,
            ),
        },
        WorkCommand::Drop(args) => stated(
            log,
            after,
            log::always(
                EventPayloadView::Work(
                    WorkEventPayloadView::WorkDropped {
                        work_id: args.work@,
                        attempt_id: views::opt_view(args.attempt),
                        outcome: meant(args.outcome),
                        why: args.why@,
                    },
                ),
            ),
            "alder.work.drop.v0"@,
            json::empty_object().with(
                "affected_downstream"@,
                json::text_list(rules::downstream(snapshot.state, args.work@)),
            ).with("attempt_id"@, json::text_or_null(views::opt_view(args.attempt))).with(
                "outcome"@,
                word_or_null(meant(args.outcome)),
            ).with(
                "stranded_questions"@,
                json::text_list(rules::unanswered_ids(snapshot.state, args.work@)),
            ).with("work_id"@, JsonView::Text(args.work@)),
            args.work@ + "  dropped"@ + affected_note(
                rules::downstream(snapshot.state, args.work@),
            ) + documents::stranding_note(rules::unanswered_ids(snapshot.state, args.work@)),
            outcome,
        ),
        WorkCommand::Reopen(args) => if text::blank(args.why@) {
            refused(log, after, input::blank_reason("--why"@), outcome)
        } else {
            stated(
                log,
                after,
                log::always(
                    EventPayloadView::Work(
                        WorkEventPayloadView::WorkReopened { work_id: args.work@, why: args.why@ },
                    ),
                ),
                "alder.work.reopen.v0"@,
                json::empty_object().with("work_id"@, JsonView::Text(args.work@)),
                args.work@ + "  reopened"@,
                outcome,
            )
        },
        WorkCommand::Block(args) => if text::blank(args.why@) {
            refused(log, after, input::blank_reason("--why"@), outcome)
        } else {
            match until_given(views::opt_view(args.until)) {
                Err(error) => refused(log, after, error, outcome),
                Ok(until) => stated(
                    log,
                    after,
                    |s: SnapshotView|
                        log::state_plan(
                            s.state,
                            args.work@,
                            WorkStateChangeView::Block { reason: args.why@, until },
                        ),
                    "alder.work.block.v0"@,
                    json::empty_object().with("state"@, JsonView::Text("blocked"@)).with(
                        "until"@,
                        shown_or_null(until),
                    ).with("work_id"@, JsonView::Text(args.work@)),
                    match until {
                        Some(at) => args.work@ + "  blocked until "@ + at.shown(),
                        None => args.work@ + "  blocked"@,
                    },
                    outcome,
                ),
            }
        },
        WorkCommand::Unblock(args) => if text::blank(args.why@) {
            refused(log, after, input::blank_reason("--why"@), outcome)
        } else {
            stated(
                log,
                after,
                |s: SnapshotView|
                    log::state_plan(
                        s.state,
                        args.work@,
                        WorkStateChangeView::Unblock { reason: args.why@ },
                    ),
                "alder.work.unblock.v0"@,
                json::empty_object().with("state"@, JsonView::Text("open"@)).with(
                    "work_id"@,
                    JsonView::Text(args.work@),
                ),
                args.work@ + "  open"@,
                outcome,
            )
        },
        WorkCommand::Ask(args) => stated_new(
            log,
            after,
            |s: SnapshotView| log::ask_plan(s.state, args.work@, args.question@),
            "alder.work.ask.v0"@,
            ask_fields(args.work@),
            outcome,
        ),
    }
}

fn new_answer_of(
    answer: Result<(AppendResult, String)>,
    schema: &str,
    fields: Json,
) -> (outcome: Result<Output>)
    ensures
        store::told(outcome) == (match log::told_new(answer) {
            Err(error) => Err::<OutputView, ErrorView>(error),
            Ok((result, id)) => Ok(appended(schema@, result, fields@, id)),
        }),
{
    match answer {
        Err(error) => Err(error),
        Ok((result, id)) => Ok(mutation_output(schema, &result, fields, id)),
    }
}

/// The ID in an answer about something new.
fn id_in(answer: &Result<(AppendResult, String)>) -> (id: String)
    ensures
        log::told_new(*answer) matches Ok((_, told)) ==> id@ == told,
{
    match answer {
        Ok((_, id)) => id.clone(),
        Err(_) => String::new(),
    }
}

#[verifier::rlimit(60)]
pub fn work<S: Store, H: AppendHook>(
    log: &mut ProjectLog<S, H>,
    snapshot: &Snapshot,
    command: &WorkCommand,
    document: Option<Result<GraphChangeDocument>>,
) -> (outcome: Result<Output>)
    ensures
        work_done(
            *old(log),
            *final(log),
            snapshot@,
            *command,
            document_told(document),
            store::told(outcome),
        ),
{
    match command {
        WorkCommand::Add(args) => work_add(log, snapshot, args, document),
        WorkCommand::Edit(args) => work_edit(log, snapshot, args, document),
        WorkCommand::Start(args) => {
            let metadata = match parse_metadata(args.meta.as_slice()) {
                Err(error) => {
                    return Err(error);
                },
                Ok(metadata) => metadata,
            };
            let answer = log.start(args.work.as_str(), opt_replica(&args.tier), metadata);
            let id = id_in(&answer);
            let fields = Json::object().with("attempt_id", Json::text(id.as_str())).with(
                "tier",
                Json::optional_text(&args.tier),
            ).with("work_id", Json::text(args.work.as_str()));
            assert(fields@ == start_fields(args.work@, views::opt_view(args.tier))(id@));
            new_answer_of(answer, "alder.work.start.v0", fields)
        },
        WorkCommand::Finish(args) => {
            if args.external && args.attempt.is_some() {
                return Err(
                    AlderError::validation(
                        "--external cannot be combined with --attempt".to_owned(),
                    ),
                );
            }
            if !args.external && args.evidence.is_some() {
                return Err(
                    AlderError::validation(
                        "--evidence is accepted only with --external".to_owned(),
                    ),
                );
            }
            let stranded = snapshot.state.unanswered_questions(args.work.as_str());
            let answer = log.finish(
                args.work.as_str(),
                opt_replica(&args.attempt),
                args.external,
                opt_replica(&args.evidence),
            );
            let human = joined3(
                args.work.as_str(),
                "  done",
                stranded_note(&stranded).as_str(),
            );
            answer_of(
                answer,
                "alder.work.finish.v0",
                Json::object().with("attempt_id", Json::optional_text(&args.attempt)).with(
                    "external",
                    Json::Bool(args.external),
                ).with("stranded_questions", Json::texts(&stranded)).with(
                    "work_id",
                    Json::text(args.work.as_str()),
                ),
                human,
            )
        },
        WorkCommand::Drop(args) => {
            let stranded = snapshot.state.unanswered_questions(args.work.as_str());
            let given: Option<AttemptOutcome> = match args.outcome {
                Some(given) => Some(AttemptOutcome::from(given)),
                None => None,
            };
            let answer = log.drop_work(
                args.work.as_str(),
                opt_replica(&args.attempt),
                given,
                args.why.clone(),
            );
            let affected = snapshot.state.downstream(args.work.as_str());
            let note = if affected.len() == 0 {
                String::new()
            } else {
                joined(" · affects ", join_texts(&affected, ", ").as_str())
            };
            assert(note@ == affected_note(views::views(affected@)));
            let word = match given {
                Some(outcome) => Json::text(format_outcome(outcome)),
                None => Json::Null,
            };
            let human = joined3(args.work.as_str(), "  dropped", note.as_str()).concat(
                stranded_note(&stranded).as_str(),
            );
            answer_of(
                answer,
                "alder.work.drop.v0",
                Json::object().with("affected_downstream", Json::texts(&affected)).with(
                    "attempt_id",
                    Json::optional_text(&args.attempt),
                ).with("outcome", word).with("stranded_questions", Json::texts(&stranded)).with(
                    "work_id",
                    Json::text(args.work.as_str()),
                ),
                human,
            )
        },
        WorkCommand::Reopen(args) => {
            if let Err(error) = require_reason("--why", Some(&args.why)) {
                return Err(error);
            }
            let answer = log.reopen(args.work.as_str(), args.why.clone());
            answer_of(
                answer,
                "alder.work.reopen.v0",
                Json::object().with("work_id", Json::text(args.work.as_str())),
                joined(args.work.as_str(), "  reopened"),
            )
        },
        WorkCommand::Block(args) => {
            if let Err(error) = require_reason("--why", Some(&args.why)) {
                return Err(error);
            }
            let until = match parse_until(&args.until) {
                Err(error) => {
                    return Err(error);
                },
                Ok(until) => until,
            };
            let answer = log.set_work_state(
                args.work.as_str(),
                WorkStateChange::Block { reason: args.why.clone(), until },
            );
            let (shown, human) = match until {
                Some(at) => {
                    let moment = at.to_rfc3339();
                    let human = joined3(args.work.as_str(), "  blocked until ", moment.as_str());
                    (Json::Text(moment), human)
                },
                None => (Json::Null, joined(args.work.as_str(), "  blocked")),
            };
            answer_of(
                answer,
                "alder.work.block.v0",
                Json::object().with("state", Json::text("blocked")).with("until", shown).with(
                    "work_id",
                    Json::text(args.work.as_str()),
                ),
                human,
            )
        },
        WorkCommand::Unblock(args) => {
            if let Err(error) = require_reason("--why", Some(&args.why)) {
                return Err(error);
            }
            let answer = log.set_work_state(
                args.work.as_str(),
                WorkStateChange::Unblock { reason: args.why.clone() },
            );
            answer_of(
                answer,
                "alder.work.unblock.v0",
                Json::object().with("state", Json::text("open")).with(
                    "work_id",
                    Json::text(args.work.as_str()),
                ),
                joined(args.work.as_str(), "  open"),
            )
        },
        WorkCommand::Ask(args) => {
            let answer = log.ask(args.work.as_str(), args.question.clone());
            let id = id_in(&answer);
            let fields = Json::object().with("question_id", Json::text(id.as_str())).with(
                "work_id",
                Json::text(args.work.as_str()),
            );
            assert(fields@ == ask_fields(args.work@)(id@));
            new_answer_of(answer, "alder.work.ask.v0", fields)
        },
    }
}

// ---- attempts ----

/// The files that the arguments of an edit name.
pub struct AttemptFiles {
    pub evidence: Option<FileText>,
    pub note: Option<FileText>,
}

pub open spec fn file_of(file: Option<FileText>) -> Option<&'static FileText> {
    match file {
        Some(text) => Some(&text),
        None => None,
    }
}

/// An edit of an attempt binds a handle, or else records progress.
pub open spec fn attempt_edited<S: Store, H: AppendHook>(
    log: ProjectLog<S, H>,
    after: ProjectLog<S, H>,
    args: AttemptEditArgs,
    files: AttemptFiles,
    outcome: Told,
) -> bool {
    match input::metadata_given(views::views(args.meta@)) {
        Err(error) => refused(log, after, error, outcome),
        Ok(metadata) => match args.handle {
            Some(handle) => if input::progress_fields(args) {
                refused(
                    log,
                    after,
                    error::validation_error("--handle can be combined only with --meta"@),
                    outcome,
                )
            } else {
                stated(
                    log,
                    after,
                    log::always(
                        EventPayloadView::Work(
                            WorkEventPayloadView::AttemptBound {
                                attempt_id: args.attempt@,
                                handle: handle@,
                                metadata,
                            },
                        ),
                    ),
                    "alder.attempt.edit.v0"@,
                    json::empty_object().with("attempt_id"@, JsonView::Text(args.attempt@)).with(
                        "change"@,
                        JsonView::Text("bound"@),
                    ).with("handle"@, JsonView::Text(handle@)),
                    args.attempt@ + "  bound "@ + handle@,
                    outcome,
                )
            },
            None => match input::verdicts_given(
                views::views(args.satisfied@),
                views::views(args.failed@),
                views::opt_view(args.evidence),
                file_of(files.evidence),
            ) {
                Err(error) => refused(log, after, error, outcome),
                Ok(checks) => match input::text_given(
                    views::opt_view(args.note),
                    file_of(files.note),
                    "--note-file"@,
                ) {
                    Err(error) => refused(log, after, error, outcome),
                    Ok(note) => if args.tier is None && metadata == Map::<
                        Seq<char>,
                        JsonView,
                    >::empty() && checks.len() == 0 && note is None {
                        refused(
                            log,
                            after,
                            error::validation_error(
                                "attempt edit requires a handle, tier, metadata, note, or check result"@,
                            ),
                            outcome,
                        )
                    } else {
                        stated(
                            log,
                            after,
                            log::always(
                                EventPayloadView::Work(
                                    WorkEventPayloadView::AttemptUpdated {
                                        attempt_id: args.attempt@,
                                        tier: views::opt_view(args.tier),
                                        metadata,
                                        note,
                                        checks,
                                    },
                                ),
                            ),
                            "alder.attempt.edit.v0"@,
                            json::empty_object().with(
                                "attempt_id"@,
                                JsonView::Text(args.attempt@),
                            ).with("change"@, JsonView::Text("updated"@)),
                            args.attempt@ + "  updated"@,
                            outcome,
                        )
                    },
                },
            },
        },
    }
}

fn inline_text(value: &Option<String>) -> (text: Option<&str>)
    ensures
        views::opt_view(text) == views::opt_view(*value),
{
    match value {
        Some(text) => Some(text.as_str()),
        None => None,
    }
}

pub fn attempt_edit<S: Store, H: AppendHook>(
    log: &mut ProjectLog<S, H>,
    args: &AttemptEditArgs,
    files: &AttemptFiles,
) -> (outcome: Result<Output>)
    ensures
        attempt_edited(*old(log), *final(log), *args, *files, store::told(outcome)),
{
    let metadata = match parse_metadata(args.meta.as_slice()) {
        Err(error) => {
            return Err(error);
        },
        Ok(metadata) => metadata,
    };
    if let Some(handle) = &args.handle {
        if handle_edit_has_progress_fields(args) {
            return Err(
                AlderError::validation("--handle can be combined only with --meta".to_owned()),
            );
        }
        let answer = log.bind_attempt(args.attempt.as_str(), handle.clone(), metadata);
        return answer_of(
            answer,
            "alder.attempt.edit.v0",
            Json::object().with("attempt_id", Json::text(args.attempt.as_str())).with(
                "change",
                Json::text("bound"),
            ).with("handle", Json::text(handle.as_str())),
            joined3(args.attempt.as_str(), "  bound ", handle.as_str()),
        );
    }
    let checks = match parse_check_results(
        args.satisfied.as_slice(),
        args.failed.as_slice(),
        inline_text(&args.evidence),
        files.evidence.as_ref(),
    ) {
        Err(error) => {
            return Err(error);
        },
        Ok(checks) => checks,
    };
    let note = match read_text_file(
        inline_text(&args.note),
        files.note.as_ref(),
        "--note-file",
    ) {
        Err(error) => {
            return Err(error);
        },
        Ok(note) => note,
    };
    assert(views::views(checks@).len() == checks@.len());
    if args.tier.is_none() && metadata.is_empty() && checks.len() == 0 && note.is_none() {
        return Err(
            AlderError::validation(
                "attempt edit requires a handle, tier, metadata, note, or check result".to_owned(),
            ),
        );
    }
    let answer = log.update_attempt(
        args.attempt.as_str(),
        opt_replica(&args.tier),
        metadata,
        note,
        checks,
    );
    answer_of(
        answer,
        "alder.attempt.edit.v0",
        Json::object().with("attempt_id", Json::text(args.attempt.as_str())).with(
            "change",
            Json::text("updated"),
        ),
        joined(args.attempt.as_str(), "  updated"),
    )
}

pub open spec fn attempt_finished<S: Store, H: AppendHook>(
    log: ProjectLog<S, H>,
    after: ProjectLog<S, H>,
    args: AttemptEndArgs,
    outcome: Told,
) -> bool {
    if text::blank(args.why@) {
        refused(log, after, input::blank_reason("--why"@), outcome)
    } else {
        stated(
            log,
            after,
            log::always(
                EventPayloadView::Work(
                    WorkEventPayloadView::AttemptEnded {
                        attempt_id: args.attempt@,
                        outcome: args.outcome.meant(),
                        why: args.why@,
                    },
                ),
            ),
            "alder.attempt.end.v0"@,
            json::empty_object().with("attempt_id"@, JsonView::Text(args.attempt@)).with(
                "outcome"@,
                JsonView::Text(outcome_word(args.outcome.meant())),
            ),
            args.attempt@ + "  ended "@ + outcome_word(args.outcome.meant()),
            outcome,
        )
    }
}

pub fn attempt_end<S: Store, H: AppendHook>(log: &mut ProjectLog<S, H>, args: &AttemptEndArgs) -> (outcome:
    Result<Output>)
    ensures
        attempt_finished(*old(log), *final(log), *args, store::told(outcome)),
{
    let result = AttemptOutcome::from(args.outcome);
    if let Err(error) = require_reason("--why", Some(&args.why)) {
        return Err(error);
    }
    let answer = log.end_attempt(args.attempt.as_str(), result, args.why.clone());
    answer_of(
        answer,
        "alder.attempt.end.v0",
        Json::object().with("attempt_id", Json::text(args.attempt.as_str())).with(
            "outcome",
            Json::text(format_outcome(result)),
        ),
        joined3(args.attempt.as_str(), "  ended ", format_outcome(result)),
    )
}

pub fn attempt<S: Store, H: AppendHook>(
    log: &mut ProjectLog<S, H>,
    command: &AttemptCommand,
    files: &AttemptFiles,
) -> (outcome: Result<Output>)
    ensures
        match *command {
            AttemptCommand::Edit(args) => attempt_edited(
                *old(log),
                *final(log),
                args,
                *files,
                store::told(outcome),
            ),
            AttemptCommand::End(args) => attempt_finished(
                *old(log),
                *final(log),
                args,
                store::told(outcome),
            ),
        },
{
    match command {
        AttemptCommand::Edit(args) => attempt_edit(log, args, files),
        AttemptCommand::End(args) => attempt_end(log, args),
    }
}

// ---- questions ----

pub fn question<S: Store, H: AppendHook>(log: &mut ProjectLog<S, H>, command: &QuestionCommand) -> (outcome:
    Result<Output>)
    ensures
        match *command {
            QuestionCommand::Answer(args) => stated(
                *old(log),
                *final(log),
                log::always(
                    EventPayloadView::Work(
                        WorkEventPayloadView::QuestionAnswered {
                            question_id: args.question@,
                            answer: args.answer@,
                        },
                    ),
                ),
                "alder.question.answer.v0"@,
                json::empty_object().with("question_id"@, JsonView::Text(args.question@)),
                args.question@ + "  answered"@,
                store::told(outcome),
            ),
        },
{
    match command {
        QuestionCommand::Answer(args) => {
            let answer = log.answer(args.question.as_str(), args.answer.clone());
            answer_of(
                answer,
                "alder.question.answer.v0",
                Json::object().with("question_id", Json::text(args.question.as_str())),
                joined(args.question.as_str(), "  answered"),
            )
        },
    }
}

// ---- observations ----

/// What an observation command answers: what was appended, or that it was no news.
pub open spec fn observed(
    answer: ObservationAppendView,
    schema: Seq<char>,
    verb: Seq<char>,
    key: ObservationKeyView,
    observation: JsonView,
) -> OutputView {
    let human = key.observer + " "@ + key.subject + " "@ + key.field + "  "@ + verb;
    match answer {
        ObservationAppendView::Appended(result) => appended(
            schema,
            result,
            json::empty_object().with("appended"@, JsonView::Bool(true)).with(
                "observation"@,
                observation,
            ),
            human,
        ),
        ObservationAppendView::Unchanged { head } => documents::shown(
            json::empty_object().with("appended"@, JsonView::Bool(false)).with(
                "head"@,
                JsonView::Int(head.seq as int),
            ).with("observation"@, observation).with(
                "revision"@,
                json::text_or_null(head.revision),
            ).with("schema"@, JsonView::Text(schema)),
            human + " (unchanged)"@,
        ),
    }
}

fn observation_mutation(
    result: ObservationAppend,
    schema: &str,
    verb: &str,
    key: &ObservationKey,
    observation: Json,
) -> (output: Output)
    ensures
        output@ == observed(result@, schema@, verb@, key@, observation@),
{
    let human = joined5(
        key.observer.as_str(),
        " ",
        key.subject.as_str(),
        " ",
        key.field.as_str(),
    ).concat("  ").concat(verb);
    match result {
        ObservationAppend::Appended(result) => mutation_output(
            schema,
            &result,
            Json::object().with("appended", Json::Bool(true)).with("observation", observation),
            human,
        ),
        ObservationAppend::Unchanged { head } => Output::new(
            Json::object().with("appended", Json::Bool(false)).with(
                "head",
                Json::number(head.sequence()),
            ).with("observation", observation).with(
                "revision",
                Json::optional_text(&head.revision),
            ).with("schema", Json::text(schema)),
            human.concat(" (unchanged)"),
        ),
    }
}

pub open spec fn report_json(key: ObservationKeyView, level: Seq<char>) -> JsonView {
    json::empty_object().with("field"@, JsonView::Text(key.field)).with(
        "level"@,
        JsonView::Text(level),
    ).with("observer"@, JsonView::Text(key.observer)).with("subject"@, JsonView::Text(key.subject))
}

pub open spec fn observation_done<S: Store, H: AppendHook>(
    log: ProjectLog<S, H>,
    after: ProjectLog<S, H>,
    key: ObservationKeyView,
    level: Option<Seq<char>>,
    outcome: Told,
) -> bool {
    exists|answer: log::Observed| #[trigger]
        log.observes(after, key, level, answer) && outcome == (match answer {
            Err(error) => Err::<OutputView, ErrorView>(error),
            Ok(result) => Ok(
                match level {
                    Some(text) => observed(
                        result,
                        "alder.observation.report.v0"@,
                        "reported"@,
                        key,
                        report_json(key, text),
                    ),
                    None => observed(
                        result,
                        "alder.observation.retire.v0"@,
                        "retired"@,
                        key,
                        log::key_json(key),
                    ),
                },
            ),
        })
}

pub fn observation<S: Store, H: AppendHook>(
    log: &mut ProjectLog<S, H>,
    command: &ObservationCommand,
) -> (outcome: Result<Output>)
    ensures
        match *command {
            ObservationCommand::Report(args) => observation_done(
                *old(log),
                *final(log),
                ObservationKeyView {
                    observer: args.observer@,
                    subject: args.subject@,
                    field: args.field@,
                },
                Some(args.level@),
                store::told(outcome),
            ),
            ObservationCommand::Retire(args) => observation_done(
                *old(log),
                *final(log),
                ObservationKeyView {
                    observer: args.observer@,
                    subject: args.subject@,
                    field: args.field@,
                },
                None,
                store::told(outcome),
            ),
        },
{
    match command {
        ObservationCommand::Report(args) => {
            let key = ObservationKey {
                observer: args.observer.clone(),
                subject: args.subject.clone(),
                field: args.field.clone(),
            };
            let answer = log.report_observation(key.replica(), args.level.clone());
            match answer {
                Err(error) => Err(error),
                Ok(result) => Ok(
                    observation_mutation(
                        result,
                        "alder.observation.report.v0",
                        "reported",
                        &key,
                        Json::object().with("field", Json::text(args.field.as_str())).with(
                            "level",
                            Json::text(args.level.as_str()),
                        ).with("observer", Json::text(args.observer.as_str())).with(
                            "subject",
                            Json::text(args.subject.as_str()),
                        ),
                    ),
                ),
            }
        },
        ObservationCommand::Retire(args) => {
            let key = ObservationKey {
                observer: args.observer.clone(),
                subject: args.subject.clone(),
                field: args.field.clone(),
            };
            let answer = log.retire_observation(key.replica());
            match answer {
                Err(error) => Err(error),
                Ok(result) => Ok(
                    observation_mutation(
                        result,
                        "alder.observation.retire.v0",
                        "retired",
                        &key,
                        log::observation_key_json(&key),
                    ),
                ),
            }
        },
    }
}

pub struct ObservationLine;

pub open spec fn observation_line() -> spec_fn(ObservationView) -> Seq<char> {
    |o: ObservationView|
        o.key.observer + "  "@ + o.key.subject + "  "@ + o.key.field + "  "@ + o.level
}

impl Tell<Observation> for ObservationLine {
    open spec fn line(&self) -> spec_fn(ObservationView) -> Seq<char> {
        observation_line()
    }

    fn tell(&self, item: &Observation) -> (line: String) {
        joined5(
            item.key.observer.as_str(),
            "  ",
            item.key.subject.as_str(),
            "  ",
            item.key.field.as_str(),
        ).concat("  ").concat(item.level.as_str())
    }
}

pub open spec fn observations_output(snapshot: SnapshotView) -> OutputView {
    let all = selection::values::<ObservationKey, ObservationView>(snapshot.state.observations);
    documents::shown(
        json::empty_object().with("head"@, JsonView::Int(snapshot.head.seq as int)).with(
            "observations"@,
            wire::list_json::<Observation>(all),
        ).with("revision"@, json::text_or_null(snapshot.head.revision)).with(
            "schema"@,
            JsonView::Text("alder.observations.v0"@),
        ),
        if all.len() == 0 {
            "no current observations"@
        } else {
            text::together(all.map_values(observation_line()), "\n"@)
        },
    )
}

/// The current observation picture.
pub fn observations(snapshot: &Snapshot) -> (output: Output)
    ensures
        output@ == observations_output(snapshot@),
{
    let all = values_of(&snapshot.state.observations);
    assert(views::views(all@).len() == all@.len());
    let human = if all.len() == 0 {
        "no current observations".to_owned()
    } else {
        join_texts(&lines_of(&all, &ObservationLine), "\n")
    };
    Output::new(
        Json::object().with("head", Json::number(snapshot.head.sequence())).with(
            "observations",
            list_to_json(&all),
        ).with("revision", Json::optional_text(&snapshot.head.revision)).with(
            "schema",
            Json::text("alder.observations.v0"),
        ),
        human,
    )
}

// ---- one object ----

pub struct HistoryLine;

/// An event in a history: its place, and its type and moment in quotes.
pub open spec fn history_line() -> spec_fn(EventView) -> Seq<char> {
    |e: EventView|
        "  #"@ + text::decimal(e.seq as nat) + "  \""@ + e.payload.event_type() + "\"  "@ + (
        match e.at.wire() {
            Some(moment) => "\""@ + moment + "\""@,
            None => "null"@,
        })
}

impl Tell<Event> for HistoryLine {
    open spec fn line(&self) -> spec_fn(EventView) -> Seq<char> {
        history_line()
    }

    fn tell(&self, item: &Event) -> (line: String) {
        let moment = match item.at.to_wire() {
            Some(moment) => joined3("\"", moment.as_str(), "\""),
            None => "null".to_owned(),
        };
        joined5(
            "  #",
            decimal_text(item.seq).as_str(),
            "  \"",
            item.payload.event_type(),
            "\"  ",
        ).concat(moment.as_str())
    }
}

pub open spec fn show_output(snapshot: SnapshotView, id: Seq<char>) -> Told {
    match documents::show_answer(snapshot.state, snapshot.events, snapshot.head, id) {
        Err(error) => Err(error),
        Ok(document) => Ok(
            OutputView {
                json: document,
                pretty: match documents::object_shown(snapshot.state, id) {
                    Some((_, current)) => Some(current),
                    None => None,
                },
                human: "\n\nhistory\n"@ + text::together(
                    documents::history(snapshot.state, snapshot.events, id).map_values(
                        history_line(),
                    ),
                    "\n"@,
                ),
            },
        ),
    }
}

/// One object as it is, and its history.
pub fn show(snapshot: &Snapshot, id: &str) -> (outcome: Result<Output>)
    ensures
        store::told(outcome) == show_output(snapshot@, id@),
{
    let document = match documents::show_document(
        &snapshot.state,
        &snapshot.events,
        &snapshot.head,
        id,
    ) {
        Err(error) => {
            return Err(error);
        },
        Ok(document) => document,
    };
    match object_and_history(&snapshot.state, &snapshot.events, id) {
        Err(error) => Err(error),
        Ok((_, current, past)) => Ok(
            Output {
                json: document,
                pretty: Some(current),
                human: joined(
                    "\n\nhistory\n",
                    join_texts(&lines_of(&past, &HistoryLine), "\n").as_str(),
                ),
            },
        ),
    }
}

} // verus!

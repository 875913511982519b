//! What the commands do to the log and what they answer.

use alder::attempt::AttemptState;
use alder::cli::{
    AttemptCommand, AttemptEditArgs, AttemptEndArgs, LoopCommand, LoopUseArgs, NonSuccessOutcome,
    ObservationCommand, ObservationReportArgs, ObservationRetireArgs, OptionalReasonArgs,
    QuestionAnswerArgs, QuestionCommand, StatusSection, WorkAddArgs, WorkAskArgs, WorkBlockArgs,
    WorkCommand, WorkDropArgs, WorkEditArgs, WorkFinishArgs, WorkReasonArgs, WorkStartArgs,
};
use alder::commands::{
    attempt, loop_command, observation, observations, question, show, work, AttemptFiles,
};
use alder::change::{AddWorkInput, GraphChangeDocument};
use alder::documents::{mutation_document, Output, ReconcileFinding};
use alder::error::{AlderError, Result};
use alder::input::FileText;
use alder::instant::Instant;
use alder::json::Json;
use alder::log::ProjectLog;
use alder::status::{next, status, status_at, Overlay};
use alder::store::{Head, MemoryStore};
use alder::work::WorkState;

type Log = ProjectLog<MemoryStore>;

fn new_log() -> Log {
    ProjectLog::new(MemoryStore::new(), "hm", "test")
}

fn run(log: &mut Log, command: WorkCommand) -> Result<Output> {
    let snapshot = log.snapshot().unwrap();
    work(log, &snapshot, &command, None)
}

fn add_args(title: Option<&str>) -> WorkAddArgs {
    WorkAddArgs {
        from: None,
        title: title.map(str::to_owned),
        spec: None,
        priority: 0,
        requires: vec![],
        check: vec![],
    }
}

fn added(log: &mut Log, title: &str) -> String {
    run(log, WorkCommand::Add(add_args(Some(title)))).unwrap().human
}

fn edit_args() -> WorkEditArgs {
    WorkEditArgs {
        work: None,
        from: None,
        title: None,
        spec: None,
        clear_spec: false,
        priority: None,
        add_requires: vec![],
        remove_requires: vec![],
        add_check: vec![],
        remove_check: vec![],
        why: None,
    }
}

fn started(log: &mut Log, work: &str) -> String {
    run(
        log,
        WorkCommand::Start(WorkStartArgs {
            work: work.to_owned(),
            tier: Some("terra".to_owned()),
            meta: vec!["engine=opus".to_owned()],
        }),
    )
    .unwrap()
    .human
}

fn no_files() -> AttemptFiles {
    AttemptFiles {
        evidence: None,
        note: None,
    }
}

fn attempt_args(id: &str) -> AttemptEditArgs {
    AttemptEditArgs {
        attempt: id.to_owned(),
        handle: None,
        tier: None,
        meta: vec![],
        satisfied: vec![],
        failed: vec![],
        evidence: None,
        evidence_file: None,
        note: None,
        note_file: None,
    }
}

fn code(outcome: Result<Output>) -> String {
    outcome.unwrap_err().code
}

#[test]
fn the_envelope_names_the_append_first() {
    let head = Head {
        revision: Some("abc".to_owned()),
        seq: 4,
    };
    let document = mutation_document(
        &head,
        "alder.work.add.v0",
        "event-4",
        &Json::object().with("work_id", Json::text("hm-1")),
    );
    for (key, value) in [
        ("head", Json::Int(4)),
        ("event_id", Json::text("event-4")),
        ("schema", Json::text("alder.work.add.v0")),
        ("revision", Json::text("abc")),
        ("work_id", Json::text("hm-1")),
    ] {
        assert_eq!(document.get(key), Some(&value), "{key}");
    }
}

#[test]
fn work_goes_from_admission_to_done() {
    let mut log = new_log();
    let id = added(&mut log, "Build it");
    assert_eq!(code(run(&mut log, WorkCommand::Add(add_args(None)))), "validation_failed");

    let attempt_id = started(&mut log, &id);
    assert_eq!(attempt_id, format!("{id}-attempt-1"));
    let state = log.snapshot().unwrap().state;
    let started_attempt = state.attempts.get(&attempt_id).unwrap();
    assert_eq!(started_attempt.tier.as_deref(), Some("terra"));
    assert_eq!(
        started_attempt.metadata.get("engine"),
        Some(&Json::text("opus"))
    );

    let mut bind = attempt_args(&attempt_id);
    bind.handle = Some("tmux:one".to_owned());
    let bound = attempt(&mut log, &AttemptCommand::Edit(bind), &no_files()).unwrap();
    assert_eq!(bound.human, format!("{attempt_id}  bound tmux:one"));

    let mut nothing = attempt_args(&attempt_id);
    assert_eq!(
        code(attempt(&mut log, &AttemptCommand::Edit(nothing), &no_files())),
        "validation_failed"
    );
    nothing = attempt_args(&attempt_id);
    nothing.note_file = Some("note.md".to_owned());
    let files = AttemptFiles {
        evidence: None,
        note: Some(FileText {
            path: "note.md".to_owned(),
            read: Ok("half way".to_owned()),
        }),
    };
    let updated = attempt(&mut log, &AttemptCommand::Edit(nothing), &files).unwrap();
    assert_eq!(updated.human, format!("{attempt_id}  updated"));
    assert_eq!(
        log.snapshot()
            .unwrap()
            .state
            .attempts
            .get(&attempt_id)
            .unwrap()
            .note
            .as_deref(),
        Some("half way")
    );

    let both = WorkFinishArgs {
        work: id.clone(),
        attempt: Some(attempt_id.clone()),
        external: true,
        evidence: None,
    };
    assert_eq!(code(run(&mut log, WorkCommand::Finish(both))), "validation_failed");
    let done = run(
        &mut log,
        WorkCommand::Finish(WorkFinishArgs {
            work: id.clone(),
            attempt: Some(attempt_id),
            external: false,
            evidence: None,
        }),
    )
    .unwrap();
    assert_eq!(done.human, format!("{id}  done"));
    assert_eq!(
        done.json.get("schema"),
        Some(&Json::text("alder.work.finish.v0"))
    );
    assert_eq!(done.json.get("stranded_questions"), Some(&Json::List(vec![])));

    let blank = WorkReasonArgs {
        work: id.clone(),
        why: " ".to_owned(),
    };
    assert_eq!(code(run(&mut log, WorkCommand::Reopen(blank))), "validation_failed");
    let reopened = run(
        &mut log,
        WorkCommand::Reopen(WorkReasonArgs {
            work: id.clone(),
            why: "regressed".to_owned(),
        }),
    )
    .unwrap();
    assert_eq!(reopened.human, format!("{id}  reopened"));
}

#[test]
fn blocks_and_questions_are_told_to_the_human() {
    let mut log = new_log();
    let id = added(&mut log, "Decide");
    let blocked = run(
        &mut log,
        WorkCommand::Block(WorkBlockArgs {
            work: id.clone(),
            why: "waiting".to_owned(),
            until: Some("2026-08-04T15:00:00+02:00".to_owned()),
        }),
    )
    .unwrap();
    assert_eq!(
        blocked.human,
        format!("{id}  blocked until 2026-08-04T13:00:00+00:00")
    );
    assert_eq!(
        blocked.json.get("until"),
        Some(&Json::text("2026-08-04T13:00:00+00:00"))
    );
    let malformed = WorkBlockArgs {
        work: id.clone(),
        why: "waiting".to_owned(),
        until: Some("3pm".to_owned()),
    };
    assert!(run(&mut log, WorkCommand::Block(malformed)).is_err());
    let open = run(
        &mut log,
        WorkCommand::Unblock(WorkReasonArgs {
            work: id.clone(),
            why: "reviewed".to_owned(),
        }),
    )
    .unwrap();
    assert_eq!(open.human, format!("{id}  open"));

    let asked = run(
        &mut log,
        WorkCommand::Ask(WorkAskArgs {
            work: id.clone(),
            question: "Ship?".to_owned(),
        }),
    )
    .unwrap();
    assert_eq!(asked.human, format!("{id}-question-1"));
    let answered = question(
        &mut log,
        &QuestionCommand::Answer(QuestionAnswerArgs {
            question: asked.human.clone(),
            answer: "Yes".to_owned(),
        }),
    )
    .unwrap();
    assert_eq!(answered.human, format!("{}  answered", asked.human));
    // The answer alone unblocks nothing.
    assert_eq!(
        log.snapshot().unwrap().state.work.get(&id).unwrap().state,
        WorkState::Blocked
    );
}

#[test]
fn dropping_names_what_is_affected() {
    let mut log = new_log();
    let first = added(&mut log, "first");
    let mut args = add_args(Some("second"));
    args.requires = vec![first.clone()];
    let second = run(&mut log, WorkCommand::Add(args)).unwrap().human;
    let dropped = run(
        &mut log,
        WorkCommand::Drop(WorkDropArgs {
            work: first.clone(),
            attempt: None,
            outcome: None,
            why: "not wanted".to_owned(),
        }),
    )
    .unwrap();
    assert_eq!(dropped.human, format!("{first}  dropped · affects {second}"));
    assert_eq!(
        dropped.json.get("affected_downstream"),
        Some(&Json::List(vec![Json::text(&second)]))
    );
}

#[test]
fn attempts_that_did_not_succeed_are_ended() {
    let mut log = new_log();
    let id = added(&mut log, "work");
    let attempt_id = started(&mut log, &id);
    let ended = attempt(
        &mut log,
        &AttemptCommand::End(AttemptEndArgs {
            attempt: attempt_id.clone(),
            outcome: NonSuccessOutcome::NotStarted,
            why: "no worker".to_owned(),
        }),
        &no_files(),
    )
    .unwrap();
    assert_eq!(ended.human, format!("{attempt_id}  ended not-started"));
    assert_eq!(
        log.snapshot()
            .unwrap()
            .state
            .attempts
            .get(&attempt_id)
            .unwrap()
            .state,
        AttemptState::Ended
    );
}

#[test]
fn edits_need_a_target_a_change_and_a_reason() {
    let mut log = new_log();
    let id = added(&mut log, "work");
    let refusals: Vec<(WorkEditArgs, &str)> = vec![
        (edit_args(), "work edit requires a work ID or --from"),
        (
            {
                let mut args = edit_args();
                args.work = Some(id.clone());
                args.why = Some("because".to_owned());
                args
            },
            "work edit requires at least one field change",
        ),
        (
            {
                let mut args = edit_args();
                args.work = Some(id.clone());
                args.spec = Some("new".to_owned());
                args.clear_spec = true;
                args
            },
            "--spec and --clear-spec cannot be combined",
        ),
        (
            {
                let mut args = edit_args();
                args.work = Some(id.clone());
                args.priority = Some(4);
                args
            },
            "work edit requires --why",
        ),
    ];
    for (args, message) in refusals {
        let error = run(&mut log, WorkCommand::Edit(args)).unwrap_err();
        assert_eq!(error.message, message);
        assert_eq!(error.code, "validation_failed");
    }
    let mut args = edit_args();
    args.work = Some(id.clone());
    args.priority = Some(4);
    args.why = Some("urgent".to_owned());
    let edited = run(&mut log, WorkCommand::Edit(args)).unwrap();
    assert_eq!(edited.human, format!("{id}  edited"));
    assert_eq!(
        log.snapshot().unwrap().state.work.get(&id).unwrap().priority,
        4
    );
}

#[test]
fn a_graph_of_work_is_admitted_at_once() {
    let mut log = new_log();
    let snapshot = log.snapshot().unwrap();
    let input = |local: &str, requires: Vec<String>| AddWorkInput {
        local: Some(local.to_owned()),
        title: local.to_owned(),
        spec: None,
        priority: 0,
        requires,
        checks: vec![],
    };
    let document = GraphChangeDocument {
        why: None,
        add: vec![
            input("base", vec![]),
            input("top", vec!["$base".to_owned()]),
        ],
        edit: vec![],
    };
    let mut args = add_args(None);
    args.from = Some("graph.json".to_owned());
    let output = work(&mut log, &snapshot, &WorkCommand::Add(args), Some(Ok(document))).unwrap();
    let state = log.snapshot().unwrap().state;
    assert_eq!(state.work.len(), 2);
    let mapped = match output.json.get("work") {
        Some(Json::List(items)) => items,
        other => panic!("expected the added work, not {other:?}"),
    };
    assert_eq!(mapped[0].get("local"), Some(&Json::text("base")));
    let base = match mapped[0].get("work_id") {
        Some(Json::Text(id)) => id.clone(),
        other => panic!("expected an ID, not {other:?}"),
    };
    let top = match mapped[1].get("work_id") {
        Some(Json::Text(id)) => id.clone(),
        other => panic!("expected an ID, not {other:?}"),
    };
    assert_eq!(state.work.get(&top).unwrap().requires, vec![base.clone()]);
    assert_eq!(
        output.human,
        format!("base                 {base}\ntop                  {top}")
    );

    let mut mixed = add_args(Some("too much"));
    mixed.from = Some("graph.json".to_owned());
    let snapshot = log.snapshot().unwrap();
    assert_eq!(
        code(work(
            &mut log,
            &snapshot,
            &WorkCommand::Add(mixed),
            Some(Err(AlderError::new("invalid_json", "no document".to_owned())))
        )),
        "validation_failed"
    );
}

/// Fields beside a document are refused first; a document that cannot be read is
/// refused with what is wrong with it.
#[test]
fn a_document_that_cannot_be_read_is_told() {
    let unread = || Some(Err(AlderError::new("invalid_json", "no document".to_owned())));
    let mut log = new_log();
    let snapshot = log.snapshot().unwrap();
    let mut args = add_args(None);
    args.from = Some("state.json".to_owned());
    assert_eq!(
        code(work(&mut log, &snapshot, &WorkCommand::Add(args), unread())),
        "invalid_json"
    );
    let edit = |title: Option<&str>| WorkEditArgs {
        work: None,
        title: title.map(str::to_owned),
        spec: None,
        clear_spec: false,
        priority: None,
        add_requires: vec![],
        remove_requires: vec![],
        add_check: vec![],
        remove_check: vec![],
        why: None,
        from: Some("state.json".to_owned()),
    };
    assert_eq!(
        code(work(&mut log, &snapshot, &WorkCommand::Edit(edit(None)), unread())),
        "invalid_json"
    );
    assert_eq!(
        code(work(&mut log, &snapshot, &WorkCommand::Edit(edit(Some("too much"))), unread())),
        "validation_failed"
    );
    assert_eq!(log.snapshot().unwrap().head.sequence(), 0);
}

#[test]
fn the_loop_commands_say_what_was_asked_for() {
    let mut log = new_log();
    let reason = || OptionalReasonArgs { why: None };
    let cases = vec![
        (LoopCommand::Pause(reason()), "loop paused"),
        (LoopCommand::Resume, "loop resumed"),
        (
            LoopCommand::Use(LoopUseArgs {
                engine: "codex".to_owned(),
            }),
            "loop engine codex",
        ),
        (LoopCommand::Rotate(reason()), "rotation requested"),
        (LoopCommand::Nudge(reason()), "nudge requested"),
    ];
    for (index, (command, human)) in cases.into_iter().enumerate() {
        let output = loop_command(&mut log, &command).unwrap();
        assert_eq!(output.human, human);
        assert_eq!(output.json.get("head"), Some(&Json::Int(index as i128 + 1)));
    }
}

#[test]
fn an_observation_that_is_no_news_is_a_success() {
    let mut log = new_log();
    let report = || {
        ObservationCommand::Report(ObservationReportArgs {
            observer: "github".to_owned(),
            subject: "owner/repo#171".to_owned(),
            field: "ci".to_owned(),
            level: "failing".to_owned(),
        })
    };
    let first = observation(&mut log, &report()).unwrap();
    assert_eq!(first.human, "github owner/repo#171 ci  reported");
    assert_eq!(first.json.get("appended"), Some(&Json::Bool(true)));
    let second = observation(&mut log, &report()).unwrap();
    assert_eq!(second.human, "github owner/repo#171 ci  reported (unchanged)");
    assert_eq!(second.json.get("appended"), Some(&Json::Bool(false)));
    assert_eq!(second.json.get("head"), Some(&Json::Int(1)));

    let listed = observations(&log.snapshot().unwrap());
    assert_eq!(listed.human, "github  owner/repo#171  ci  failing");
    let retired = observation(
        &mut log,
        &ObservationCommand::Retire(ObservationRetireArgs {
            observer: "github".to_owned(),
            subject: "owner/repo#171".to_owned(),
            field: "ci".to_owned(),
        }),
    )
    .unwrap();
    assert_eq!(retired.human, "github owner/repo#171 ci  retired");
    let none = observations(&log.snapshot().unwrap());
    assert_eq!(none.human, "no current observations");
}

#[test]
fn show_gives_the_object_and_its_history() {
    let mut log = new_log();
    let id = added(&mut log, "work");
    let snapshot = log.snapshot().unwrap();
    let shown = show(&snapshot, &id).unwrap();
    assert_eq!(
        shown.json.get("schema"),
        Some(&Json::text("alder.show.v0"))
    );
    assert!(shown.human.starts_with("\n\nhistory\n  #1  \"work.changed\"  \""));
    assert_eq!(show(&snapshot, "hm-nothing").unwrap_err().code, "not_found");
}

fn finding(kind: &str) -> ReconcileFinding {
    ReconcileFinding {
        kind: kind.to_owned(),
        attempt_id: None,
        handle: Some("tmux:gone".to_owned()),
        status: "absent".to_owned(),
        detail: "the worker is gone".to_owned(),
        suggested_command: None,
        metadata: Json::object(),
    }
}

#[test]
fn the_status_counts_what_its_sections_hold() {
    let mut log = new_log();
    let ready = added(&mut log, "Ready");
    let running = added(&mut log, "Running");
    let attempt_id = started(&mut log, &running);
    let snapshot = log.snapshot().unwrap();
    let now = Instant::read("2026-08-04T15:00:00Z").unwrap();
    let findings = vec![finding("missing"), finding("unknown")];

    let counts = status_at(&snapshot, None, false, &[], &findings, now).unwrap();
    assert_eq!(
        counts.human,
        "head 3\n\ncounts\n  attention  1\n  in flight  1\n  ready  1\n  waiting on human  0\n  \
         blocked  0"
    );
    let counted = counts.json.get("counts").unwrap();
    assert_eq!(counted.get("attention"), Some(&Json::Int(1)));
    assert_eq!(counted.get("ready"), Some(&Json::Int(1)));
    assert_eq!(counts.json.get("ready"), None);

    let picked = status_at(
        &snapshot,
        None,
        false,
        &[StatusSection::Ready, StatusSection::Attention],
        &findings,
        now,
    )
    .unwrap();
    assert_eq!(
        picked.human,
        format!(
            "head 3\n\nattention\n  tmux:gone  the worker is gone\n\nready\n  {ready}  Ready  \
             priority 0"
        )
    );

    let full = status_at(&snapshot, None, true, &[], &vec![], now).unwrap();
    assert_eq!(
        full.human,
        format!(
            "head 3\n\nin flight\n  {running}  {attempt_id}  unbound  unknown\n\nready\n  {ready}  \
             Ready  priority 0"
        )
    );
    match full.json.get("recent_events") {
        Some(Json::List(events)) => assert_eq!(events.len(), 3),
        other => panic!("expected the recent events, not {other:?}"),
    }
    assert!(status(&snapshot, None, false, &[], &vec![]).is_ok());
}

#[test]
fn a_change_can_be_looked_at_without_being_written() {
    let mut log = new_log();
    added(&mut log, "There");
    let snapshot = log.snapshot().unwrap();
    let overlay = Overlay {
        source: "plan.json".to_owned(),
        document: GraphChangeDocument {
            why: Some("plan".to_owned()),
            add: vec![AddWorkInput {
                local: None,
                title: "Planned".to_owned(),
                spec: None,
                priority: 9,
                requires: vec![],
                checks: vec![],
            }],
            edit: vec![],
        },
    };
    let told = next(&snapshot, Some(&overlay)).unwrap();
    assert!(told.human.starts_with(
        "hypothetical · based on head 1 · plan.json · not written\n$new-1  Planned  priority 9\n"
    ));
    assert_eq!(told.json.get("hypothetical"), Some(&Json::Bool(true)));
    let real = next(&snapshot, None).unwrap();
    assert!(real.human.ends_with("There  priority 0"));
    assert_eq!(real.json.get("source"), Some(&Json::Null));
    assert_eq!(log.snapshot().unwrap().head.sequence(), 1);
}

//! Sessions: commands given in turn to one project.

use alder::change::{AddWorkInput, EditWorkInput, GraphChangeDocument};
use alder::cli::{
    AttemptCommand, AttemptEditArgs, AttemptEndArgs, DebugLogCommand, DebugObservationsArgs,
    LoopCommand, LoopUseArgs, NonSuccessOutcome, ObservationCommand, ObservationReportArgs,
    ObservationRetireArgs, OptionalReasonArgs, QuestionAnswerArgs, QuestionCommand, StatusSection,
    WorkAddArgs, WorkAskArgs, WorkBlockArgs, WorkCommand, WorkDropArgs, WorkEditArgs,
    WorkFinishArgs, WorkReasonArgs, WorkStartArgs,
};
use alder::commands::{
    attempt, loop_command, observation, observations, question, show, work, AttemptFiles,
};
use alder::config::ObserverConfig;
use alder::debug::{debug_log, debug_observations, observer_to_run};
use alder::documents::Output;
use alder::error::{context_lines, AlderError, ContextLine, LineValue, Result};
use alder::event::{Event, EventDraft};
use alder::input::FileText;
use alder::instant::Instant;
use alder::json::Json;
use alder::log::ProjectLog;
use alder::observer::{
    apply_refresh, normalize, probe_level, probe_targets, reconcile_attempts, Listed,
};
use alder::projection::{state_rows, Cell, Table};
use alder::refresh::{reconcile, refresh, ObserverRun, RefreshApplication};
use alder::status::{next, status, status_at, Overlay};
use alder::store::{AppendResult, Head, MemoryStore, Store};
use alder::work::WorkState;

/// What follows a command's own words: positions, and flags with their values.
struct Arguments {
    positions: Vec<String>,
    flags: Vec<(String, Option<String>)>,
}

const SWITCHES: [&str; 3] = ["--external", "--clear-spec", "--full"];

impl Arguments {
    fn new(words: &[&str]) -> Arguments {
        let mut positions = Vec::new();
        let mut flags = Vec::new();
        let mut index = 0;
        while index < words.len() {
            let word = words[index];
            if SWITCHES.contains(&word) {
                flags.push((word.to_owned(), None));
            } else if word.starts_with("--") {
                index += 1;
                flags.push((word.to_owned(), Some(words[index].to_owned())));
            } else {
                positions.push(word.to_owned());
            }
            index += 1;
        }
        Arguments { positions, flags }
    }

    fn at(&self, index: usize) -> String {
        self.positions[index].clone()
    }

    fn has(&self, flag: &str) -> bool {
        self.flags.iter().any(|(name, _)| name == flag)
    }

    fn all(&self, flag: &str) -> Vec<String> {
        self.flags
            .iter()
            .filter(|(name, _)| name == flag)
            .map(|(_, value)| value.clone().unwrap())
            .collect()
    }

    fn one(&self, flag: &str) -> Option<String> {
        self.all(flag).into_iter().next()
    }
}

/// What stands in for the files of a working directory.
struct Files {
    texts: Vec<(String, String)>,
    changes: Vec<(String, GraphChangeDocument)>,
}

impl Files {
    fn text(&self, path: Option<String>) -> Option<FileText> {
        path.map(|path| FileText {
            read: self
                .texts
                .iter()
                .find(|(name, _)| *name == path)
                .map(|(_, text)| text.clone())
                .ok_or("no such file".to_owned()),
            path,
        })
    }
}

struct TestProject<S: Store> {
    log: ProjectLog<S>,
    files: Files,
    observers: Vec<ObserverConfig>,
}

fn outcome_named(word: &str) -> NonSuccessOutcome {
    match word {
        "failed" => NonSuccessOutcome::Failed,
        "cancelled" => NonSuccessOutcome::Cancelled,
        "lost" => NonSuccessOutcome::Lost,
        _ => NonSuccessOutcome::NotStarted,
    }
}

fn section_named(word: &str) -> StatusSection {
    match word {
        "attention" => StatusSection::Attention,
        "in_flight" => StatusSection::InFlight,
        "ready" => StatusSection::Ready,
        "waiting_on_human" => StatusSection::WaitingOnHuman,
        _ => StatusSection::Blocked,
    }
}

impl TestProject<MemoryStore> {
    fn new() -> TestProject<MemoryStore> {
        TestProject::over(MemoryStore::new())
    }
}

impl<S: Store> TestProject<S> {
    fn over(store: S) -> TestProject<S> {
        TestProject {
            log: ProjectLog::new(store, "hm", "tester"),
            files: Files {
                texts: vec![],
                changes: vec![],
            },
            observers: vec![],
        }
    }

    fn work_command(name: &str, args: &Arguments) -> WorkCommand {
        let reason = || WorkReasonArgs {
            work: args.at(0),
            why: args.one("--why").unwrap(),
        };
        match name {
            "add" => WorkCommand::Add(WorkAddArgs {
                from: args.one("--from"),
                title: args.one("--title"),
                spec: args.one("--spec"),
                priority: args
                    .one("--priority")
                    .map_or(0, |digits| digits.parse().unwrap()),
                requires: args.all("--requires"),
                check: args.all("--check"),
            }),
            "edit" => WorkCommand::Edit(WorkEditArgs {
                work: args.positions.first().cloned(),
                from: args.one("--from"),
                title: args.one("--title"),
                spec: args.one("--spec"),
                clear_spec: args.has("--clear-spec"),
                priority: args
                    .one("--priority")
                    .map(|digits| digits.parse().unwrap()),
                add_requires: args.all("--add-requires"),
                remove_requires: args.all("--remove-requires"),
                add_check: args.all("--add-check"),
                remove_check: args.all("--remove-check"),
                why: args.one("--why"),
            }),
            "start" => WorkCommand::Start(WorkStartArgs {
                work: args.at(0),
                tier: args.one("--tier"),
                meta: args.all("--meta"),
            }),
            "finish" => WorkCommand::Finish(WorkFinishArgs {
                work: args.at(0),
                attempt: args.one("--attempt"),
                external: args.has("--external"),
                evidence: args.one("--evidence"),
            }),
            "drop" => WorkCommand::Drop(WorkDropArgs {
                work: args.at(0),
                attempt: args.one("--attempt"),
                outcome: args.one("--outcome").map(|word| outcome_named(&word)),
                why: args.one("--why").unwrap(),
            }),
            "reopen" => WorkCommand::Reopen(reason()),
            "unblock" => WorkCommand::Unblock(reason()),
            "block" => WorkCommand::Block(WorkBlockArgs {
                work: args.at(0),
                why: args.one("--why").unwrap(),
                until: args.one("--until"),
            }),
            "ask" => WorkCommand::Ask(WorkAskArgs {
                work: args.at(0),
                question: args.at(1),
            }),
            other => panic!("no work command {other}"),
        }
    }

    fn overlay(&self, path: Option<String>) -> Option<Overlay> {
        path.map(|path| Overlay {
            document: copied(
                &self
                    .files
                    .changes
                    .iter()
                    .find(|(name, _)| *name == path)
                    .unwrap()
                    .1,
            ),
            source: path,
        })
    }

    fn run(&mut self, words: &[&str]) -> Result<Output> {
        let snapshot = self.log.snapshot()?;
        let rest = Arguments::new(&words[2.min(words.len())..]);
        let tail = Arguments::new(&words[1..]);
        match words[0] {
            "work" => {
                let command = Self::work_command(words[1], &rest);
                let change = self.overlay(rest.one("--from")).map(|o| Ok(o.document));
                work(&mut self.log, &snapshot, &command, change)
            }
            "attempt" => {
                let command = match words[1] {
                    "edit" => AttemptCommand::Edit(AttemptEditArgs {
                        attempt: rest.at(0),
                        handle: rest.one("--handle"),
                        tier: rest.one("--tier"),
                        meta: rest.all("--meta"),
                        satisfied: rest.all("--satisfied"),
                        failed: rest.all("--failed"),
                        evidence: rest.one("--evidence"),
                        evidence_file: rest.one("--evidence-file"),
                        note: rest.one("--note"),
                        note_file: rest.one("--note-file"),
                    }),
                    _ => AttemptCommand::End(AttemptEndArgs {
                        attempt: rest.at(0),
                        outcome: outcome_named(&rest.one("--outcome").unwrap()),
                        why: rest.one("--why").unwrap(),
                    }),
                };
                let files = AttemptFiles {
                    evidence: self.files.text(rest.one("--evidence-file")),
                    note: self.files.text(rest.one("--note-file")),
                };
                attempt(&mut self.log, &command, &files)
            }
            "question" => question(
                &mut self.log,
                &QuestionCommand::Answer(QuestionAnswerArgs {
                    question: rest.at(0),
                    answer: rest.at(1),
                }),
            ),
            "observation" => {
                let (observer, subject, field) = (rest.at(0), rest.at(1), rest.at(2));
                let command = if words[1] == "report" {
                    ObservationCommand::Report(ObservationReportArgs {
                        observer,
                        subject,
                        field,
                        level: rest.at(3),
                    })
                } else {
                    ObservationCommand::Retire(ObservationRetireArgs {
                        observer,
                        subject,
                        field,
                    })
                };
                observation(&mut self.log, &command)
            }
            "observations" => Ok(observations(&snapshot)),
            "loop" => {
                let reason = OptionalReasonArgs {
                    why: rest.one("--why"),
                };
                let command = match words[1] {
                    "pause" => LoopCommand::Pause(reason),
                    "resume" => LoopCommand::Resume,
                    "use" => LoopCommand::Use(LoopUseArgs {
                        engine: rest.at(0),
                    }),
                    "rotate" => LoopCommand::Rotate(reason),
                    _ => LoopCommand::Nudge(reason),
                };
                loop_command(&mut self.log, &command)
            }
            "status" => {
                let sections: Vec<StatusSection> = tail
                    .all("--section")
                    .iter()
                    .map(|word| section_named(word))
                    .collect();
                let overlay = self.overlay(tail.one("--with"));
                status(
                    &snapshot,
                    overlay.as_ref(),
                    tail.has("--full"),
                    &sections,
                    &reconcile_attempts(&snapshot.state),
                )
            }
            "next" => next(&snapshot, self.overlay(tail.one("--with")).as_ref()),
            "show" => show(&snapshot, words[1]),
            "debug" if words[1] == "observations" => debug_observations(
                &self.observers,
                &snapshot.state,
                &DebugObservationsArgs {
                    kind: rest.positions.first().cloned(),
                    run: false,
                },
            ),
            _ => debug_log(
                &snapshot,
                &match words[2] {
                    "head" => DebugLogCommand::Head,
                    "tail" => DebugLogCommand::Tail,
                    "show" => DebugLogCommand::Show {
                        seq: words[3].parse().unwrap(),
                    },
                    _ => DebugLogCommand::Verify,
                },
            ),
        }
    }

    /// Applies one run of an observer that lists `items`.
    fn refresh(&mut self, kind: &str, success: bool, items: Vec<Listed>) -> RefreshApplication {
        let state = self.log.snapshot().unwrap().state;
        let runs = vec![ObserverRun {
            kind: kind.to_owned(),
            success,
            normalized: normalize(&state, &items),
            document: Json::Null,
        }];
        let (appended, retired) = apply_refresh(&mut self.log, &self.observers, &runs).unwrap();
        RefreshApplication {
            runs,
            appended,
            retired,
            head: self.log.snapshot().unwrap().head,
        }
    }

    fn success(&mut self, words: &[&str]) -> Json {
        match self.run(words) {
            Ok(output) => output.json,
            Err(error) => panic!("{words:?}: {error:?}"),
        }
    }

    fn failure(&mut self, words: &[&str]) -> AlderError {
        self.run(words).unwrap_err()
    }

    fn human(&mut self, words: &[&str]) -> String {
        self.run(words).unwrap().human
    }
}

fn copied(document: &GraphChangeDocument) -> GraphChangeDocument {
    let texts = |values: &Vec<String>| values.clone();
    GraphChangeDocument {
        why: document.why.clone(),
        add: document
            .add
            .iter()
            .map(|add| AddWorkInput {
                local: add.local.clone(),
                title: add.title.clone(),
                spec: add.spec.clone(),
                priority: add.priority,
                requires: texts(&add.requires),
                checks: vec![],
            })
            .collect(),
        edit: document
            .edit
            .iter()
            .map(|edit| EditWorkInput {
                id: edit.id.clone(),
                title: edit.title.clone(),
                spec: None,
                priority: edit.priority,
                add_requires: texts(&edit.add_requires),
                remove_requires: texts(&edit.remove_requires),
                add_checks: vec![],
                remove_checks: texts(&edit.remove_checks),
                block: edit.block,
                unblock: edit.unblock,
            })
            .collect(),
    }
}

fn addition(local: Option<&str>, title: &str, priority: i64, requires: &[&str]) -> AddWorkInput {
    AddWorkInput {
        local: local.map(str::to_owned),
        title: title.to_owned(),
        spec: None,
        priority,
        requires: requires.iter().map(|id| (*id).to_owned()).collect(),
        checks: vec![],
    }
}

fn edition(id: &str) -> EditWorkInput {
    EditWorkInput {
        id: id.to_owned(),
        title: None,
        spec: None,
        priority: None,
        add_requires: vec![],
        remove_requires: vec![],
        add_checks: vec![],
        remove_checks: vec![],
        block: false,
        unblock: false,
    }
}

/// The value at a path of member names and places, written with dots.
fn value<'a>(document: &'a Json, path: &str) -> &'a Json {
    let mut here = document;
    for step in path.split('.') {
        here = match here {
            Json::List(items) => &items[step.parse::<usize>().unwrap()],
            other => other
                .get(step)
                .unwrap_or_else(|| panic!("no `{step}` of `{path}` in {document:?}")),
        };
    }
    here
}

fn text(document: &Json, path: &str) -> String {
    match value(document, path) {
        Json::Text(content) => content.clone(),
        other => panic!("expected a text at `{path}`, not {other:?}"),
    }
}

fn count(document: &Json, path: &str) -> i128 {
    match value(document, path) {
        Json::Int(n) => *n,
        other => panic!("expected a number at `{path}`, not {other:?}"),
    }
}

fn items<'a>(document: &'a Json, path: &str) -> &'a Vec<Json> {
    match value(document, path) {
        Json::List(items) => items,
        other => panic!("expected a list at `{path}`, not {other:?}"),
    }
}

#[test]
fn drive_work_and_preserve_the_completion_contract() {
    let mut project = TestProject::new();
    let first = project.success(&[
        "work",
        "add",
        "--title",
        "Build index",
        "--priority",
        "90",
        "--check",
        "tests:index tests pass",
        "--check",
        "review:review is approved",
    ]);
    let first_id = text(&first, "work_id");
    let second = project.success(&[
        "work",
        "add",
        "--title",
        "Validate index",
        "--requires",
        &first_id,
    ]);
    let second_id = text(&second, "work_id");
    let resource_less = project.failure(&["work", "edit", &first_id]);
    assert_eq!(resource_less.code, "validation_failed");
    assert_eq!(
        resource_less.message,
        "work edit requires at least one field change"
    );

    let next = project.success(&["next"]);
    assert_eq!(items(&next, "work").len(), 1);
    assert_eq!(text(&next, "work.0.id"), first_id);

    let started = project.success(&["work", "start", &first_id, "--meta", "engine=opus-5"]);
    let attempt = text(&started, "attempt_id");
    assert!(attempt.ends_with("-attempt-1"));
    assert_eq!(count(&project.success(&["status"]), "counts.in_flight"), 1);
    let in_flight = project.success(&["status", "--full"]);
    assert_eq!(text(&in_flight, "in_flight.0.id"), attempt);
    assert!(items(&in_flight, "ready").is_empty());
    let duplicate = project.failure(&["work", "start", &first_id]);
    assert_eq!(duplicate.code, "active_attempt");
    assert_eq!(text(&duplicate.context, "active_attempt_id"), attempt);

    let incomplete = project.failure(&["work", "finish", &first_id, "--attempt", &attempt]);
    assert_eq!(incomplete.code, "incomplete_checks");
    project.success(&[
        "attempt",
        "edit",
        &attempt,
        "--satisfied",
        "tests",
        "--evidence",
        "CI 42",
    ]);
    project.success(&[
        "attempt",
        "edit",
        &attempt,
        "--satisfied",
        "review",
        "--evidence",
        "review 17",
    ]);
    project.success(&["work", "finish", &first_id, "--attempt", &attempt]);

    let next = project.success(&["next"]);
    assert_eq!(text(&next, "work.0.id"), second_id);
    let shown = project.success(&["show", &first_id]);
    let event_types: Vec<String> = items(&shown, "history")
        .iter()
        .map(|event| text(event, "type"))
        .collect();
    for name in ["attempt.started", "attempt.updated", "work.finished"] {
        assert!(event_types.contains(&name.to_owned()), "{name}");
    }

    let rows = state_rows(&project.log.snapshot().unwrap().state);
    assert_eq!(
        rows.iter()
            .filter(|row| row.table == Table::WorkCurrent)
            .count(),
        2
    );

    let asked = project.success(&["work", "ask", &second_id, "Ship now?"]);
    let question = text(&asked, "question_id");
    assert_eq!(
        count(&project.success(&["status"]), "counts.waiting_on_human"),
        1
    );
    let waiting = project.success(&["status", "--full"]);
    assert_eq!(text(&waiting, "waiting_on_human.0.id"), question);
    assert!(!project
        .human(&["status", "--full"])
        .contains("answered questions still blocked"));
    project.success(&["question", "answer", &question, "Wait"]);
    project.success(&["question", "answer", &question, "Ship"]);
    assert_eq!(
        count(&project.success(&["status"]), "counts.waiting_on_human"),
        0
    );
    assert_eq!(count(&project.success(&["status"]), "counts.blocked"), 1);
    let status = project.success(&["status", "--full"]);
    assert!(items(&status, "waiting_on_human").is_empty());
    assert_eq!(text(&status, "questions.0.answer"), "Ship");
    assert_eq!(items(&status, "questions.0.answers").len(), 2);
    assert_eq!(text(&status, "blocked.0.id"), second_id);
    assert!(project
        .human(&["status", "--full"])
        .contains("answered questions still blocked"));
}

#[test]
fn graph_changes_are_hypothetical_then_atomic() {
    let mut project = TestProject::new();
    let root = project.success(&["work", "add", "--title", "Root"]);
    let root_id = text(&root, "work_id");
    let base_head = count(&root, "head");
    let mut edit = edition(&root_id);
    edit.add_requires = vec!["$validate".to_owned()];
    project.files.changes.push((
        "change.json".to_owned(),
        GraphChangeDocument {
            why: Some("split validation".to_owned()),
            add: vec![
                addition(Some("build"), "Build", 90, &[]),
                addition(Some("validate"), "Validate", 0, &["$build"]),
            ],
            edit: vec![edit],
        },
    ));

    let preview = project.success(&["next", "--with", "change.json"]);
    assert_eq!(value(&preview, "hypothetical"), &Json::Bool(true));
    assert_eq!(count(&preview, "head"), base_head);
    assert_eq!(text(&preview, "work.0.id"), "$build");
    let head = project.success(&["debug", "log", "head"]);
    assert_eq!(count(&head, "head"), base_head);
    assert_eq!(project.log.snapshot().unwrap().state.work.len(), 1);

    let applied = project.success(&["work", "edit", "--from", "change.json"]);
    assert_eq!(count(&applied, "head"), base_head + 1);
    assert_eq!(items(&applied, "added").len(), 2);
    let log = project.success(&["debug", "log", "tail"]);
    assert_eq!(items(&log, "events").len(), 2);
    assert_eq!(text(&log, "events.1.type"), "work.changed");

    project.files.changes.push((
        "additions.json".to_owned(),
        GraphChangeDocument {
            why: None,
            add: vec![addition(Some("extra"), "Extra", 0, &[])],
            edit: vec![],
        },
    ));
    let added = project.success(&["work", "add", "--from", "additions.json"]);
    assert_eq!(items(&added, "work").len(), 1);
    let wrong_surface = project.failure(&["work", "edit", "--from", "additions.json"]);
    assert_eq!(wrong_surface.code, "validation_failed");
}

#[test]
fn attempt_file_values_append_contents_not_local_paths() {
    let mut project = TestProject::new();
    let work = text(
        &project.success(&[
            "work",
            "add",
            "--title",
            "Record a finding",
            "--check",
            "review:review is recorded",
        ]),
        "work_id",
    );
    let attempt = text(&project.success(&["work", "start", &work]), "attempt_id");

    let evidence =
        "finding: literal `backtick`, $(not-a-command), and \"quotes\"\nref: work/hm-file";
    let note = "review findings recorded from the local file";
    project.files.texts = vec![
        ("review-findings.txt".to_owned(), evidence.to_owned()),
        ("worker-note.txt".to_owned(), note.to_owned()),
    ];
    let updated = project.success(&[
        "attempt",
        "edit",
        &attempt,
        "--satisfied",
        "review",
        "--evidence-file",
        "review-findings.txt",
        "--note-file",
        "worker-note.txt",
    ]);

    // The paths were only input. With both files gone, the log and its fold still
    // have what was in them.
    project.files.texts.clear();

    let sequence = count(&updated, "head").to_string();
    let event = project.success(&["debug", "log", "show", &sequence]);
    assert_eq!(text(&event, "event.type"), "attempt.updated");
    assert_eq!(text(&event, "event.body.checks.0.evidence"), evidence);
    assert_eq!(text(&event, "event.body.note"), note);
    assert!(value(&event, "event.body").get("evidence_file").is_none());
    assert!(value(&event, "event.body").get("note_file").is_none());

    let current = project.success(&["show", &attempt]);
    assert_eq!(
        text(&current, "current.checks.review.evidence"),
        evidence
    );
    assert_eq!(text(&current, "current.note"), note);
}

#[test]
fn blank_evidence_file_names_the_file_valued_flag() {
    let mut project = TestProject::new();
    let work = text(
        &project.success(&[
            "work",
            "add",
            "--title",
            "Reject blank file evidence",
            "--check",
            "review:review is recorded",
        ]),
        "work_id",
    );
    let attempt = text(&project.success(&["work", "start", &work]), "attempt_id");
    project.files.texts = vec![("blank-evidence.txt".to_owned(), " \n\t".to_owned())];

    let failure = project.failure(&[
        "attempt",
        "edit",
        &attempt,
        "--satisfied",
        "review",
        "--evidence-file",
        "blank-evidence.txt",
    ]);
    assert_eq!(failure.code, "validation_failed");
    assert_eq!(
        failure.message,
        "--satisfied and --failed require --evidence-file"
    );
}

const STATUS_SECTIONS: [&str; 5] = [
    "attention",
    "in_flight",
    "ready",
    "waiting_on_human",
    "blocked",
];

/// One item lands in every section that asks for action; nothing needs attention.
#[test]
fn status_defaults_to_counts_and_expands_only_on_request() {
    let mut project = TestProject::new();
    project.success(&["work", "add", "--title", "Ready work"]);

    let flight_work = text(
        &project.success(&["work", "add", "--title", "In-flight work"]),
        "work_id",
    );
    let attempt = text(
        &project.success(&["work", "start", &flight_work]),
        "attempt_id",
    );
    project.success(&["attempt", "edit", &attempt, "--handle", "tmux:worker"]);

    let blocked_work = text(
        &project.success(&["work", "add", "--title", "Blocked work"]),
        "work_id",
    );
    project.success(&["work", "ask", &blocked_work, "Ship now?"]);

    let counts_only = project.success(&["status"]);
    for section in STATUS_SECTIONS {
        let expected = if section == "attention" { 0 } else { 1 };
        assert_eq!(
            count(&counts_only, &format!("counts.{section}")),
            expected,
            "{section} count"
        );
        assert!(
            counts_only.get(section).is_none(),
            "{section} leaked into the default pack"
        );
    }
    assert!(counts_only.get("recent_events").is_none());
    assert!(counts_only.get("loop").is_some());
    assert!(counts_only.get("observations").is_some());
    assert!(counts_only.get("questions").is_some());

    let human_default = project.human(&["status"]);
    assert!(human_default.contains("\ncounts\n"), "{human_default}");
    assert!(human_default.contains("attention  0"), "{human_default}");
    assert!(human_default.contains("blocked  1"), "{human_default}");
    assert!(
        !human_default.contains(&flight_work),
        "a work id should not appear in the counts-only view"
    );

    let full = project.success(&["status", "--full"]);
    assert_eq!(value(&full, "counts"), value(&counts_only, "counts"));
    for section in STATUS_SECTIONS {
        assert_eq!(
            items(&full, section).len() as i128,
            count(&full, &format!("counts.{section}")),
            "{section} count must match its expanded section length"
        );
    }
    assert!(full.get("recent_events").is_some());
    let human_full = project.human(&["status", "--full"]);
    assert!(human_full.contains(&flight_work), "{human_full}");

    for section in STATUS_SECTIONS {
        let sectioned = project.success(&["status", "--section", section]);
        assert_eq!(value(&sectioned, "counts"), value(&counts_only, "counts"));
        assert_eq!(
            value(&sectioned, section),
            value(&full, section),
            "{section} round-trip"
        );
        for other in STATUS_SECTIONS {
            if other != section {
                assert!(
                    sectioned.get(other).is_none(),
                    "{other} leaked under --section {section}"
                );
            }
        }
        assert!(sectioned.get("recent_events").is_none());
    }

    // Repeated sections are shown once and in their own order, in whatever order
    // they were asked for.
    let asked = [
        "status",
        "--section",
        "blocked",
        "--section",
        "ready",
        "--section",
        "blocked",
    ];
    let selected = project.success(&asked);
    assert_eq!(value(&selected, "ready"), value(&full, "ready"));
    assert_eq!(value(&selected, "blocked"), value(&full, "blocked"));
    for other in ["attention", "in_flight", "waiting_on_human"] {
        assert!(selected.get(other).is_none(), "{other} leaked");
    }
    let selected_human = project.human(&asked);
    let ready_at = selected_human.find("\nready\n").unwrap();
    let blocked_at = selected_human.find("\nblocked\n").unwrap();
    assert!(ready_at < blocked_at);
    assert_eq!(selected_human.matches("\nblocked\n").count(), 1);

    // In full is all sections, whatever else was asked for.
    let full_with_section = project.success(&["status", "--full", "--section", "ready"]);
    assert_eq!(full_with_section, full);
}

#[test]
fn status_with_composes_with_counts() {
    let mut project = TestProject::new();
    project.success(&["work", "add", "--title", "Existing"]);
    let baseline = count(&project.success(&["status"]), "counts.ready");
    project.files.changes.push((
        "overlay.json".to_owned(),
        GraphChangeDocument {
            why: None,
            add: vec![addition(None, "Hypothetical", 0, &[])],
            edit: vec![],
        },
    ));

    let overlaid = project.success(&["status", "--with", "overlay.json"]);
    assert_eq!(value(&overlaid, "hypothetical"), &Json::Bool(true));
    assert_eq!(count(&overlaid, "counts.ready"), baseline + 1);
    assert!(overlaid.get("ready").is_none());

    let overlaid_full = project.success(&["status", "--with", "overlay.json", "--full"]);
    assert_eq!(count(&overlaid_full, "counts.ready"), baseline + 1);
    assert_eq!(items(&overlaid_full, "ready").len() as i128, baseline + 1);

    // Nothing was written.
    assert_eq!(
        count(&project.success(&["status"]), "counts.ready"),
        baseline
    );
}

#[test]
fn debug_log_human_output_uses_one_consistent_header() {
    let mut project = TestProject::new();
    let added = project.success(&["work", "add", "--title", "Inspect output"]);
    let revision = text(&added, "revision");
    let event_id = text(&added, "event_id");
    let header = format!("head 1  {revision}");

    assert_eq!(project.human(&["debug", "log", "head"]), header);
    assert_eq!(
        project.human(&["debug", "log", "tail"]),
        format!("{header}\n#1  work.changed  {event_id}")
    );
}

/// How the facts of an error are told to a human.
fn told(error: &AlderError) -> String {
    let mut lines = vec![format!("error [{}]: {}", error.code, error.message)];
    for ContextLine { key, value } in context_lines(&error.context) {
        let shown = match value {
            LineValue::Bare(content) => content,
            LineValue::Encoded(Json::Bool(b)) => b.to_string(),
            LineValue::Encoded(Json::Int(n)) => n.to_string(),
            LineValue::Encoded(other) => format!("{other:?}"),
        };
        lines.push(match key {
            Some(key) => format!("  {key}: {shown}"),
            None => format!("  {shown}"),
        });
    }
    lines.join("\n")
}

#[test]
fn errors_are_told_as_fields_under_one_line() {
    let mut project = TestProject::new();
    assert_eq!(
        told(&project.failure(&["work", "finish", "missing", "--evidence", "proof"])),
        "error [validation_failed]: --evidence is accepted only with --external"
    );
    assert_eq!(
        told(&project.failure(&["show", "missing"])),
        "error [not_found]: object `missing` was not found\n  id: missing\n  kind: object"
    );
}

#[test]
fn mutually_exclusive_edit_and_finish_arguments_are_all_rejected() {
    let mut project = TestProject::new();
    let added = project.success(&["work", "add", "--title", "work"]);
    let work = text(&added, "work_id");

    assert_eq!(
        project
            .failure(&[
                "work",
                "finish",
                &work,
                "--external",
                "--attempt",
                "not-an-attempt",
                "--evidence",
                "proof",
            ])
            .code,
        "validation_failed"
    );
    assert_eq!(
        project
            .failure(&["work", "finish", &work, "--evidence", "proof"])
            .code,
        "validation_failed"
    );

    let mut edit = edition(&work);
    edit.title = Some("changed".to_owned());
    project.files.changes.push((
        "edit.json".to_owned(),
        GraphChangeDocument {
            why: Some("change".to_owned()),
            add: vec![],
            edit: vec![edit],
        },
    ));
    assert_eq!(
        project
            .failure(&["work", "edit", &work, "--from", "edit.json"])
            .code,
        "validation_failed"
    );
    assert_eq!(
        project
            .failure(&["work", "edit", "--from", "edit.json", "--title", "changed"])
            .code,
        "validation_failed"
    );
    project.success(&["work", "edit", &work, "--spec", "one", "--why", "set spec"]);
    project.success(&["work", "edit", &work, "--clear-spec", "--why", "clear spec"]);
    assert_eq!(
        value(&project.success(&["show", &work]), "current.spec"),
        &Json::Null
    );
    let conflicting_spec = project.failure(&[
        "work",
        "edit",
        &work,
        "--title",
        "changed",
        "--spec",
        "one",
        "--clear-spec",
        "--why",
        "reason",
    ]);
    assert_eq!(conflicting_spec.code, "validation_failed");
    assert_eq!(
        conflicting_spec.message,
        "--spec and --clear-spec cannot be combined"
    );
    let blank_why = project.failure(&["work", "edit", &work, "--title", "changed", "--why", " "]);
    assert_eq!(blank_why.code, "validation_failed");
    assert_eq!(blank_why.message, "work edit requires --why");

    let started = project.success(&["work", "start", &work]);
    let attempt = text(&started, "attempt_id");
    for fields in [
        vec!["--satisfied", "test", "--evidence", "proof"],
        vec!["--failed", "test", "--evidence", "proof"],
        vec!["--evidence", "proof"],
        vec!["--note", "working"],
    ] {
        let mut args = vec!["attempt", "edit", attempt.as_str(), "--handle", "tmux:one"];
        args.extend(fields);
        assert_eq!(project.failure(&args).code, "validation_failed");
    }
    assert_eq!(
        project.failure(&["attempt", "edit", &attempt]).code,
        "validation_failed"
    );
    assert_eq!(
        project
            .failure(&["attempt", "edit", &attempt, "--satisfied", "test"])
            .message,
        "--satisfied and --failed require --evidence"
    );
    assert_eq!(
        project
            .failure(&["attempt", "edit", &attempt, "--evidence", "proof"])
            .message,
        "--evidence is accepted only with --satisfied or --failed"
    );
    let blank_end_why = project.failure(&[
        "attempt",
        "end",
        &attempt,
        "--outcome",
        "failed",
        "--why",
        " ",
    ]);
    assert_eq!(blank_end_why.code, "validation_failed");
    assert_eq!(blank_end_why.message, "--why cannot be empty");
    let ended = project.success(&[
        "attempt",
        "end",
        &attempt,
        "--outcome",
        "failed",
        "--why",
        "worker exited",
    ]);
    assert_eq!(text(&ended, "schema"), "alder.attempt.end.v0");
    assert_eq!(text(&ended, "outcome"), "failed");
    assert_eq!(
        project
            .failure(&["attempt", "edit", &attempt, "--note", "late"])
            .code,
        "attempt_ended"
    );
}

#[test]
fn work_state_verbs_replace_the_removed_edit_flags() {
    let mut project = TestProject::new();
    let work = text(
        &project.success(&["work", "add", "--title", "Blockable"]),
        "work_id",
    );

    let blocked = project.success(&["work", "block", &work, "--why", "credentials missing"]);
    assert_eq!(text(&blocked, "schema"), "alder.work.block.v0");
    assert_eq!(
        text(&project.success(&["show", &work]), "current.state"),
        "blocked"
    );
    assert!(items(&project.success(&["next"]), "work").is_empty());

    let question = text(
        &project.success(&["work", "ask", &work, "Which credentials?"]),
        "question_id",
    );
    assert_eq!(
        project
            .failure(&["work", "unblock", &work, "--why", "guessing"])
            .code,
        "unanswered_question"
    );
    project.success(&["question", "answer", &question, "the release pair"]);
    let unblocked = project.success(&["work", "unblock", &work, "--why", "credentials installed"]);
    assert_eq!(text(&unblocked, "schema"), "alder.work.unblock.v0");
    assert_eq!(
        text(&project.success(&["show", &work]), "current.state"),
        "open"
    );
    assert_eq!(
        project
            .failure(&["work", "block", "hm-missing", "--why", "reason"])
            .code,
        "not_found"
    );

    let attempt = text(&project.success(&["work", "start", &work]), "attempt_id");
    let dropped = project.success(&[
        "work",
        "drop",
        &work,
        "--attempt",
        &attempt,
        "--outcome",
        "cancelled",
        "--why",
        "approach cannot work",
    ]);
    assert_eq!(text(&dropped, "schema"), "alder.work.drop.v0");
    // The question was answered before, so nothing is stranded.
    assert!(items(&dropped, "stranded_questions").is_empty());
    let reopened = project.success(&["work", "reopen", &work, "--why", "requirement stands"]);
    assert_eq!(text(&reopened, "schema"), "alder.work.reopen.v0");
    assert_eq!(
        text(&project.success(&["show", &work]), "current.state"),
        "open"
    );
}

/// The rows of unanswered questions about work that is neither done nor dropped.
fn open_question_rows(project: &TestProject<MemoryStore>) -> usize {
    let rows = state_rows(&project.log.snapshot().unwrap().state);
    let is_text = |cell: &Cell, text: &str| matches!(cell, Cell::Text(held) if held == text);
    rows.iter()
        .filter(|row| row.table == Table::Questions && matches!(row.cells[3], Cell::Null))
        .filter(|question| {
            rows.iter().any(|work| {
                work.table == Table::WorkCurrent
                    && matches!(
                        (&work.cells[0], &question.cells[1]),
                        (Cell::Text(id), Cell::Text(about)) if id == about
                    )
                    && !is_text(&work.cells[4], "done")
                    && !is_text(&work.cells[4], "dropped")
            })
        })
        .count()
}

#[test]
fn terminal_work_strands_its_questions_until_it_is_reopened() {
    let mut project = TestProject::new();
    let work = text(
        &project.success(&["work", "add", "--title", "Ship the digest"]),
        "work_id",
    );
    let question = text(
        &project.success(&["work", "ask", &work, "Masked digest, or wait for AA-6?"]),
        "question_id",
    );

    // While the work is live the question is a decision someone owes.
    assert_eq!(
        count(&project.success(&["status"]), "counts.waiting_on_human"),
        1
    );
    let status = project.success(&["status", "--full"]);
    assert_eq!(text(&status, "waiting_on_human.0.id"), question);
    assert_eq!(value(&status, "questions.0.stranded"), &Json::Null);
    assert!(project.human(&["status", "--full"]).contains(&question));
    assert_eq!(open_question_rows(&project), 1);

    // Dropping the work strands it, and says so.
    let dropped = project.success(&["work", "drop", &work, "--why", "requirement withdrawn"]);
    assert_eq!(text(&dropped, "stranded_questions.0"), question);
    assert_eq!(
        count(&project.success(&["status"]), "counts.waiting_on_human"),
        0
    );
    let status = project.success(&["status", "--full"]);
    assert!(items(&status, "waiting_on_human").is_empty());
    assert_eq!(text(&status, "questions.0.stranded"), "work dropped");
    assert!(!project.human(&["status", "--full"]).contains(&question));
    assert_eq!(open_question_rows(&project), 0);

    // The question itself is never hidden.
    let shown = project.success(&["show", &question]);
    assert_eq!(text(&shown, "kind"), "question");
    assert_eq!(text(&shown, "current.stranded"), "work dropped");
    let pretty = project.run(&["show", &question]).unwrap().pretty.unwrap();
    assert!(pretty.get("stranded").is_some());

    // Reopening is the whole way back; the question is still unanswered, so the
    // work lands in `blocked` and not in `open`.
    project.success(&["work", "reopen", &work, "--why", "requirement stands"]);
    assert_eq!(
        text(&project.success(&["show", &work]), "current.state"),
        "blocked"
    );
    assert_eq!(
        count(&project.success(&["status"]), "counts.waiting_on_human"),
        1
    );
    let status = project.success(&["status", "--section", "waiting_on_human"]);
    assert_eq!(text(&status, "waiting_on_human.0.id"), question);
    assert!(status.get("blocked").is_none());
    assert_eq!(
        value(&project.success(&["show", &question]), "current.stranded"),
        &Json::Null
    );

    // A late answer to a stranded question is recorded all the same.
    project.success(&["work", "drop", &work, "--why", "withdrawn again"]);
    project.success(&["question", "answer", &question, "masked digest"]);
    let shown = project.success(&["show", &question]);
    assert_eq!(text(&shown, "current.answer"), "masked digest");
    assert_eq!(text(&shown, "current.stranded"), "work dropped");
}

#[test]
fn reopen_lands_in_blocked_when_an_unanswered_question_survives() {
    let mut project = TestProject::new();
    let work = text(
        &project.success(&["work", "add", "--title", "Ship the digest"]),
        "work_id",
    );
    let question = text(
        &project.success(&["work", "ask", &work, "Masked digest, or wait for AA-6?"]),
        "question_id",
    );
    project.success(&["work", "drop", &work, "--why", "requirement withdrawn"]);

    let reopened = project.success(&["work", "reopen", &work, "--why", "requirement stands"]);
    assert_eq!(text(&reopened, "schema"), "alder.work.reopen.v0");
    let shown = project.success(&["show", &work]);
    assert_eq!(text(&shown, "current.state"), "blocked");
    assert_eq!(
        text(&shown, "current.block_reason"),
        format!("question {question}")
    );

    // The question that survived blocks as it does for `work unblock`.
    assert_eq!(
        project
            .failure(&["work", "unblock", &work, "--why", "guessing"])
            .code,
        "unanswered_question"
    );
    project.success(&["question", "answer", &question, "masked digest"]);
    project.success(&["work", "unblock", &work, "--why", "decided"]);
    assert_eq!(
        text(&project.success(&["show", &work]), "current.state"),
        "open"
    );
}

#[test]
fn terminal_transitions_report_the_questions_they_strand() {
    let mut project = TestProject::new();
    let dropped_work = text(
        &project.success(&["work", "add", "--title", "Drop me"]),
        "work_id",
    );
    let dropped_question = text(
        &project.success(&["work", "ask", &dropped_work, "Which lane?"]),
        "question_id",
    );
    let human = project.human(&["work", "drop", &dropped_work, "--why", "superseded"]);
    assert!(
        human.contains(&format!("also strands {dropped_question}")),
        "{human}"
    );

    // External completion strands too.
    let finished_work = text(
        &project.success(&["work", "add", "--title", "Finish me"]),
        "work_id",
    );
    let finished_question = text(
        &project.success(&["work", "ask", &finished_work, "Which digest?"]),
        "question_id",
    );
    let finished = project.success(&[
        "work",
        "finish",
        &finished_work,
        "--external",
        "--evidence",
        "PR 171 merged",
    ]);
    assert_eq!(text(&finished, "stranded_questions.0"), finished_question);
    assert_eq!(
        text(
            &project.success(&["show", &finished_question]),
            "current.stranded"
        ),
        "work done"
    );
    assert_eq!(
        count(&project.success(&["status"]), "counts.waiting_on_human"),
        0
    );

    // Work with nothing outstanding strands nothing and says nothing.
    let quiet = text(
        &project.success(&["work", "add", "--title", "Quiet"]),
        "work_id",
    );
    let human = project.human(&["work", "drop", &quiet, "--why", "not needed"]);
    assert_eq!(human.trim(), format!("{quiet}  dropped"));
}

#[test]
fn actors_and_the_history_of_objects_are_preserved() {
    let mut project = TestProject::new();
    project.log.actor = "side-channel".to_owned();
    let added = project.success(&["work", "add", "--title", "one"]);
    let first = text(&added, "work_id");
    project.log.actor = "tester".to_owned();
    let second = text(
        &project.success(&["work", "add", "--title", "two"]),
        "work_id",
    );
    let first_question = text(
        &project.success(&["work", "ask", &first, "first question"]),
        "question_id",
    );
    project.success(&["work", "ask", &second, "second question"]);

    let shown = project.success(&["show", &first]);
    assert_eq!(text(&shown, "history.0.actor"), "side-channel");
    assert_eq!(items(&shown, "history").len(), 2);
    let question = project.success(&["show", &first_question]);
    assert_eq!(text(&question, "kind"), "question");
}

#[test]
fn hypothetical_ordinals_and_debug_selection_are_exact() {
    let mut project = TestProject::new();
    project.success(&["work", "add", "--title", "root"]);
    project.files.changes.push((
        "anonymous.json".to_owned(),
        GraphChangeDocument {
            why: None,
            add: vec![addition(None, "one", 0, &[]), addition(None, "two", 0, &[])],
            edit: vec![],
        },
    ));
    let preview = project.success(&["next", "--with", "anonymous.json"]);
    let hypothetical: Vec<&Json> = items(&preview, "work")
        .iter()
        .filter(|work| text(work, "id").starts_with('$'))
        .collect();
    assert_eq!(text(hypothetical[0], "id"), "$new-1");
    assert_eq!(text(hypothetical[1], "id"), "$new-2");
    assert_eq!(count(hypothetical[0], "opened_seq"), 2);

    let first = project.success(&["debug", "log", "show", "1"]);
    assert_eq!(count(&first, "event.seq"), 1);
    assert_eq!(
        project.failure(&["debug", "log", "show", "2"]).code,
        "not_found"
    );

    for name in ["tmux", "nimbus"] {
        project.observers.push(ObserverConfig {
            observer: name.to_owned(),
            list: Some("printf '[]'".to_owned()),
            probe: None,
        });
    }
    let selected = project.success(&["debug", "observations", "tmux"]);
    assert_eq!(items(&selected, "kinds").len(), 1);
    assert_eq!(text(&selected, "kinds.0.kind"), "tmux");
    let running = |kind: &str| DebugObservationsArgs {
        kind: Some(kind.to_owned()),
        run: true,
    };
    assert_eq!(
        observer_to_run(&project.observers, &running("tmux"))
            .unwrap()
            .observer,
        "tmux"
    );
    assert_eq!(
        observer_to_run(&project.observers, &running("missing"))
            .unwrap_err()
            .code,
        "observer_unconfigured"
    );
    assert_eq!(
        project.failure(&["debug", "observations", "missing"]).code,
        "not_found"
    );
}

#[test]
fn the_loop_folds_desired_state() {
    let mut project = TestProject::new();
    let empty = project.success(&["status"]);
    assert_eq!(value(&empty, "loop.paused"), &Json::Bool(false));
    for unset in ["engine", "rotate_requested_seq", "nudge_requested_seq", "review_at"] {
        assert_eq!(value(&empty, &format!("loop.{unset}")), &Json::Null);
    }
    assert!(!project.human(&["status"]).contains("\nloop\n"));

    project.success(&["loop", "use", "opus"]);
    let paused = project.success(&["loop", "pause", "--why", "release freeze"]);
    assert_eq!(text(&paused, "schema"), "alder.loop.pause.v0");
    let status = project.success(&["status"]);
    assert_eq!(value(&status, "loop.paused"), &Json::Bool(true));
    assert_eq!(text(&status, "loop.pause_reason"), "release freeze");
    assert_eq!(text(&status, "loop.engine"), "opus");
    assert!(project
        .human(&["status"])
        .contains("paused · release freeze · engine opus"));
    project.success(&["loop", "resume"]);
    assert_eq!(
        value(&project.success(&["status"]), "loop.paused"),
        &Json::Bool(false)
    );
    // No object answers to the ID of a pass.
    assert_eq!(project.failure(&["show", "hm-pass-1"]).code, "not_found");

    let rows = state_rows(&project.log.snapshot().unwrap().state);
    let control = rows
        .iter()
        .find(|row| row.table == Table::LoopControl)
        .unwrap();
    assert!(matches!(control.cells[1], Cell::Number(0)));
    assert!(matches!(&control.cells[3], Cell::Text(engine) if engine == "opus"));
    assert!(matches!(control.cells[4], Cell::Null));
}

#[test]
fn cli_rotation_and_nudge_requests_record_the_sequence_they_were_asked_at() {
    let mut project = TestProject::new();
    let requested = project.success(&["loop", "rotate", "--why", "engine upgraded"]);
    assert_eq!(text(&requested, "schema"), "alder.loop.rotate.v0");
    let status = project.success(&["status"]);
    assert_eq!(
        value(&status, "loop.rotate_requested_seq"),
        value(&status, "head")
    );
    assert_eq!(value(&status, "loop.nudge_requested_seq"), &Json::Null);

    let nudged = project.success(&["loop", "nudge", "--why", "an answer landed"]);
    assert_eq!(text(&nudged, "schema"), "alder.loop.nudge.v0");
    let status = project.success(&["status"]);
    assert_eq!(
        value(&status, "loop.nudge_requested_seq"),
        value(&status, "head")
    );
    // A nudge is not a rotation; each has its own request.
    assert_eq!(count(&status, "loop.rotate_requested_seq"), 1);

    // A later request takes the place of the one before.
    project.success(&["loop", "rotate"]);
    let status = project.success(&["status"]);
    assert_eq!(
        value(&status, "loop.rotate_requested_seq"),
        value(&status, "head")
    );
}

#[test]
fn a_deferral_is_a_statement_on_the_work_item_and_expires_into_review() {
    let mut project = TestProject::new();
    let early = text(
        &project.success(&["work", "add", "--title", "Deferred early"]),
        "work_id",
    );
    let late = text(
        &project.success(&["work", "add", "--title", "Deferred late"]),
        "work_id",
    );

    // A malformed instant never reaches the log.
    assert_eq!(
        project
            .failure(&["work", "block", &early, "--why", "wait", "--until", "3pm"])
            .code,
        "validation_failed"
    );

    let blocked = project.success(&[
        "work",
        "block",
        &early,
        "--why",
        "third-party outage",
        "--until",
        "2099-01-02T15:00:00Z",
    ]);
    assert_eq!(text(&blocked, "until"), "2099-01-02T15:00:00+00:00");
    project.success(&[
        "work",
        "block",
        &late,
        "--why",
        "vendor review",
        "--until",
        "2099-06-01T09:00:00Z",
    ]);

    // The earliest deadline of all blocked work is the next review of the loop.
    let status = project.success(&["status", "--section", "blocked"]);
    assert_eq!(text(&status, "loop.review_at"), "2099-01-02T15:00:00Z");
    let untils: Vec<String> = items(&status, "blocked")
        .iter()
        .map(|work| text(work, "block_until"))
        .collect();
    assert!(untils.contains(&"2099-01-02T15:00:00Z".to_owned()));
    assert!(project
        .human(&["status", "--section", "blocked"])
        .contains("third-party outage · until 2099-01-02T15:00:00+00:00"));
    // A deadline that is still to come is nobody's business yet.
    assert_eq!(count(&project.success(&["status"]), "counts.attention"), 0);
    assert!(!items(&project.success(&["next"]), "work")
        .iter()
        .any(|work| text(work, "id") == early));

    // One that has passed puts the item up for review, and unblocks nothing.
    let overdue = text(
        &project.success(&["work", "add", "--title", "Deferred and overdue"]),
        "work_id",
    );
    project.success(&[
        "work",
        "block",
        &overdue,
        "--why",
        "check again later",
        "--until",
        "2020-01-01T00:00:00Z",
    ]);
    let status = project.success(&["status", "--section", "attention"]);
    assert_eq!(count(&status, "counts.attention"), 1);
    assert_eq!(text(&status, "attention.0.kind"), "block_expired");
    assert!(text(&status, "attention.0.detail").contains(&overdue));
    assert!(text(&status, "attention.0.suggested_command")
        .starts_with(&format!("alder work unblock {overdue}")));
    assert!(!items(&project.success(&["next"]), "work")
        .iter()
        .any(|work| text(work, "id") == overdue));
    project.success(&["work", "unblock", &overdue, "--why", "reviewed: retry now"]);
    assert_eq!(count(&project.success(&["status"]), "counts.attention"), 0);

    // Blocking again without a deadline clears it. The key is there, and null.
    project.success(&["work", "block", &overdue, "--why", "paused indefinitely"]);
    let shown = project.success(&["show", &overdue]);
    assert_eq!(value(&shown, "current.block_until"), &Json::Null);
}

#[test]
fn finish_drop_and_reopen_each_clear_the_deferral_deadline() {
    let mut project = TestProject::new();
    let until = "2099-01-02T15:00:00Z";

    let finished = text(
        &project.success(&["work", "add", "--title", "Deferred then finished"]),
        "work_id",
    );
    project.success(&[
        "work", "block", &finished, "--why", "wait", "--until", until,
    ]);
    project.success(&[
        "work",
        "finish",
        &finished,
        "--external",
        "--evidence",
        "done upstream",
    ]);
    assert_eq!(
        value(&project.success(&["show", &finished]), "current.block_until"),
        &Json::Null
    );

    let dropped = text(
        &project.success(&["work", "add", "--title", "Deferred then dropped"]),
        "work_id",
    );
    project.success(&["work", "block", &dropped, "--why", "wait", "--until", until]);
    project.success(&["work", "drop", &dropped, "--why", "requirement withdrawn"]);
    assert_eq!(
        value(&project.success(&["show", &dropped]), "current.block_until"),
        &Json::Null
    );

    project.success(&["work", "reopen", &finished, "--why", "not actually done"]);
    assert_eq!(
        value(&project.success(&["show", &finished]), "current.block_until"),
        &Json::Null
    );
}

#[test]
fn observations_are_quiet_when_unchanged_and_snapshot_the_newest_level() {
    let mut project = TestProject::new();
    let report = |project: &mut TestProject<MemoryStore>, level: &str| {
        project.success(&[
            "observation",
            "report",
            "github",
            "owner/repo#171",
            "ci",
            level,
        ])
    };
    let first = report(&mut project, "running");
    assert_eq!(value(&first, "appended"), &Json::Bool(true));
    assert_eq!(count(&first, "head"), 1);

    let repeated = report(&mut project, "running");
    assert_eq!(value(&repeated, "appended"), &Json::Bool(false));
    assert_eq!(count(&repeated, "head"), 1);

    let changed = report(&mut project, "passing");
    assert_eq!(value(&changed, "appended"), &Json::Bool(true));
    assert_eq!(count(&changed, "head"), 2);

    let snapshot = project.success(&["observations"]);
    assert_eq!(count(&snapshot, "head"), 2);
    assert_eq!(items(&snapshot, "observations").len(), 1);
    assert_eq!(text(&snapshot, "observations.0.observer"), "github");
    assert_eq!(text(&snapshot, "observations.0.subject"), "owner/repo#171");
    assert_eq!(text(&snapshot, "observations.0.field"), "ci");
    assert_eq!(text(&snapshot, "observations.0.level"), "passing");
    assert_eq!(count(&snapshot, "observations.0.reported_seq"), 2);

    let retired = project.success(&["observation", "retire", "github", "owner/repo#171", "ci"]);
    assert_eq!(value(&retired, "appended"), &Json::Bool(true));
    assert!(items(&project.success(&["observations"]), "observations").is_empty());
}

fn level(subject: &str, field: &str, level: &str) -> Listed {
    Listed::Level {
        subject: subject.to_owned(),
        field: field.to_owned(),
        level: level.to_owned(),
    }
}

fn handle(value: &str, attempt_id: Option<&str>) -> Listed {
    Listed::Handle {
        value: value.to_owned(),
        attempt_id: attempt_id.map(str::to_owned),
    }
}

#[test]
fn refresh_adapts_the_existing_handle_observer_to_durable_liveness() {
    let mut project = TestProject::new();
    let refreshed = project.refresh("tmux", true, vec![handle("stray", None)]);
    assert_eq!(refreshed.appended, 1);
    let snapshot = project.success(&["observations"]);
    assert_eq!(text(&snapshot, "observations.0.observer"), "tmux");
    assert_eq!(text(&snapshot, "observations.0.subject"), "stray");
    assert_eq!(text(&snapshot, "observations.0.field"), "liveness");
    assert_eq!(text(&snapshot, "observations.0.level"), "present");
    let again = project.refresh("tmux", true, vec![handle("stray", None)]);
    assert!(refresh(&again).human.contains("no observation changes"));
}

#[test]
fn levels_are_kept_when_an_observer_fails_or_goes() {
    let mut project = TestProject::new();
    let work = text(
        &project.success(&["work", "add", "--title", "Observed work"]),
        "work_id",
    );
    let attempt = text(&project.success(&["work", "start", &work]), "attempt_id");
    project.success(&["attempt", "edit", &attempt, "--handle", "tmux:worker"]);

    let refreshed = project.refresh("tmux", true, vec![handle("worker", Some(&attempt))]);
    assert_eq!(refreshed.appended, 2);
    assert!(project
        .human(&["status", "--full"])
        .contains("tmux:worker  present"));
    let state = project.log.snapshot().unwrap().state;
    let reconciled = reconcile(
        &refreshed.head,
        Some(&refreshed),
        &reconcile_attempts(&state),
    );
    assert_eq!(value(&reconciled.json, "refreshed"), &Json::Bool(true));
    assert!(items(&reconciled.json, "findings").is_empty());

    let failed = project.refresh("tmux", false, vec![]);
    assert_eq!(failed.appended, 0);
    let snapshot = project.success(&["observations"]);
    assert_eq!(
        items(&snapshot, "observations")
            .iter()
            .find(|observation| text(observation, "field") == "liveness")
            .map(|observation| text(observation, "level")),
        Some("present".to_owned())
    );
}

#[test]
fn refresh_reports_change_without_counting_metadata_churn() {
    let mut project = TestProject::new();
    let work = text(
        &project.success(&["work", "add", "--title", "Observed"]),
        "work_id",
    );
    let attempt = text(&project.success(&["work", "start", &work]), "attempt_id");
    project.success(&["attempt", "edit", &attempt, "--handle", "tmux:worker"]);

    let listed = || vec![handle("worker", Some(&attempt))];
    let first = project.refresh("tmux", true, listed());
    assert_eq!(
        value(&refresh(&first).json, "changed"),
        &Json::Bool(true)
    );
    assert_eq!(count(&refresh(&first).json, "result.appended"), 2);
    for _ in 0..2 {
        let again = project.refresh("tmux", true, listed());
        assert_eq!(
            value(&refresh(&again).json, "changed"),
            &Json::Bool(false)
        );
    }
    let again = project.refresh("tmux", true, listed());
    assert!(refresh(&again).human.contains("no observation changes"));

    let gone = project.refresh("tmux", true, vec![]);
    assert!(refresh(&gone)
        .human
        .contains("recorded 2 observation changes"));
    let again = project.refresh("tmux", true, vec![]);
    assert_eq!(
        value(&refresh(&again).json, "changed"),
        &Json::Bool(false)
    );
}

#[test]
fn refresh_applies_complete_level_snapshots_through_the_quiet_append_path() {
    let mut project = TestProject::new();
    let first = project.refresh("tmux", true, vec![level("worker", "liveness", "present")]);
    assert_eq!(value(&refresh(&first).json, "changed"), &Json::Bool(true));
    assert_eq!(first.appended, 1);
    let repeated = project.refresh("tmux", true, vec![level("worker", "liveness", "present")]);
    assert_eq!(value(&refresh(&repeated).json, "changed"), &Json::Bool(false));
    assert_eq!(repeated.appended, 0);

    let changed = project.refresh("tmux", true, vec![level("worker", "liveness", "absent")]);
    assert_eq!(changed.appended, 1);
    assert_eq!(
        text(&project.success(&["observations"]), "observations.0.level"),
        "absent"
    );

    let retired = project.refresh("tmux", true, vec![]);
    assert_eq!(retired.retired, 1);
    assert!(items(&project.success(&["observations"]), "observations").is_empty());
}

#[test]
fn a_listing_changes_nothing_of_another_observer() {
    let mut project = TestProject::new();
    project.refresh("github", true, vec![level("owner/repo#1", "ci", "passing")]);
    project.refresh("tmux", true, vec![level("worker", "liveness", "present")]);
    let emptied = project.refresh("tmux", true, vec![]);
    assert_eq!((emptied.appended, emptied.retired), (1, 1));
    let snapshot = project.success(&["observations"]);
    assert_eq!(items(&snapshot, "observations").len(), 1);
    assert_eq!(text(&snapshot, "observations.0.observer"), "github");
    assert_eq!(text(&snapshot, "observations.0.level"), "passing");
}

/// A worker that is still there although its attempt has ended is in the way of the next.
#[test]
fn a_worker_that_outlives_its_attempt_needs_attention() {
    let mut project = TestProject::new();
    let work = text(
        &project.success(&["work", "add", "--title", "Cancelled work"]),
        "work_id",
    );
    let attempt = text(&project.success(&["work", "start", &work]), "attempt_id");
    project.success(&["attempt", "edit", &attempt, "--handle", "tmux:worker"]);
    let listed = || {
        vec![
            level("worker", "liveness", "present"),
            level("worker", "attempt-id", &attempt),
        ]
    };
    project.refresh("tmux", true, listed());
    project.success(&[
        "attempt",
        "end",
        &attempt,
        "--outcome",
        "cancelled",
        "--why",
        "not wanted",
    ]);
    let status = project.success(&["status", "--full"]);
    assert_eq!(count(&status, "counts.attention"), 1);
    assert_eq!(text(&status, "attention.0.kind"), "orphan");
    assert_eq!(text(&status, "attention.0.attempt_id"), attempt);
    assert_eq!(text(&status, "attention.0.status"), "present");

    // Once it is gone, so is what was known of it.
    project.refresh("tmux", true, vec![]);
    assert!(items(&project.success(&["observations"]), "observations").is_empty());
    assert_eq!(count(&project.success(&["status"]), "counts.attention"), 0);
}

/// As long as its attempt runs, a liveness key that is left out becomes an explicit
/// `absent`, so that any reader of the log sees the death and what to do about it. The
/// key is retired once the attempt has ended.
#[test]
fn a_dead_workers_liveness_stays_absent_until_its_attempt_ends() {
    let mut project = TestProject::new();
    let work = text(
        &project.success(&["work", "add", "--title", "Doomed work"]),
        "work_id",
    );
    let attempt = text(&project.success(&["work", "start", &work]), "attempt_id");
    project.success(&["attempt", "edit", &attempt, "--handle", "tmux:worker"]);

    let first = project.refresh(
        "tmux",
        true,
        vec![
            level("worker", "liveness", "present"),
            level("worker", "attempt-id", &attempt),
        ],
    );
    assert_eq!(first.appended, 2);
    assert_eq!(count(&project.success(&["status"]), "counts.attention"), 0);

    // What was alive is gone while the attempt still runs.
    let died = project.refresh("tmux", true, vec![]);
    assert_eq!(died.appended, 2);
    assert_eq!(died.retired, 1);
    assert_eq!(
        text(&project.success(&["observations"]), "observations.0.level"),
        "absent"
    );

    let status = project.success(&["status", "--full"]);
    assert_eq!(count(&status, "counts.attention"), 1);
    assert_eq!(text(&status, "attention.0.kind"), "missing");
    assert_eq!(text(&status, "attention.0.attempt_id"), attempt);

    // Saying it again changes nothing.
    let repeated = project.refresh("tmux", true, vec![]);
    assert_eq!(repeated.appended, 0);

    project.success(&[
        "attempt",
        "end",
        &attempt,
        "--outcome",
        "lost",
        "--why",
        "observed absent",
    ]);
    let after_end = project.refresh("tmux", true, vec![]);
    assert_eq!(after_end.retired, 1);
    assert!(items(&project.success(&["observations"]), "observations").is_empty());
    assert_eq!(count(&project.success(&["status"]), "counts.attention"), 0);
}

#[test]
fn observers_are_asked_about_running_attempts_and_those_still_watched() {
    let mut project = TestProject::new();
    project.observers.push(ObserverConfig {
        observer: "runner".to_owned(),
        list: None,
        probe: Some("probe \"$1\"".to_owned()),
    });
    let work = text(
        &project.success(&["work", "add", "--title", "Probed"]),
        "work_id",
    );
    let attempt = text(&project.success(&["work", "start", &work]), "attempt_id");
    let targets = |project: &TestProject<MemoryStore>| {
        probe_targets(&project.log.snapshot().unwrap().state, "runner")
    };
    assert!(targets(&project).is_empty());
    project.success(&["attempt", "edit", &attempt, "--handle", "job 7"]);
    assert_eq!(targets(&project)[0].handle, "job 7");
    assert_eq!(targets(&project)[0].attempt_id, attempt);

    let answer = |project: &mut TestProject<MemoryStore>, printed: &str| {
        let target = &targets(project)[0];
        let runs = vec![ObserverRun {
            kind: "runner".to_owned(),
            success: true,
            normalized: probe_level(target, printed).into_iter().collect(),
            document: Json::Null,
        }];
        apply_refresh(&mut project.log, &project.observers, &runs).unwrap()
    };
    assert_eq!(answer(&mut project, " present\n"), (1, 0));
    // What is no answer, or is not given, says nothing.
    assert_eq!(answer(&mut project, "present and well"), (0, 0));
    assert!(project
        .human(&["status", "--full"])
        .contains("job 7  present"));

    project.success(&[
        "attempt",
        "end",
        &attempt,
        "--outcome",
        "cancelled",
        "--why",
        "stopped",
    ]);
    // The attempt has ended but is known to be alive, so it is still watched.
    assert_eq!(targets(&project).len(), 1);
    assert_eq!(answer(&mut project, "absent"), (1, 1));
    assert!(targets(&project).is_empty());
}

/// A store in memory that another writer gets to first, once it is told to.
struct Raced {
    inner: MemoryStore,
    rival: Option<EventDraft>,
}

impl Store for Raced {
    fn current_head(&self) -> Result<Head> {
        self.inner.current_head()
    }

    fn read_events(&self, head: &Head) -> Result<Vec<Event>> {
        self.inner.read_events(head)
    }

    fn append(&mut self, expected: &Head, draft: &EventDraft) -> Result<AppendResult> {
        if let Some(rival) = self.rival.take() {
            let current = self.inner.current_head()?;
            self.inner.append(&current, &rival)?;
        }
        self.inner.append(expected, draft)
    }
}

/// What another writer puts into the log meanwhile: a note on an attempt.
fn milestone(project: &TestProject<Raced>, attempt: &str, note: &str) -> EventDraft {
    let mut other: TestProject<MemoryStore> = TestProject::new();
    let events = project.log.snapshot().unwrap().events;
    for event in events {
        let head = other.log.store.current_head().unwrap();
        let draft = EventDraft {
            id: event.id,
            at: event.at,
            actor: event.actor,
            payload: event.payload,
            schema: event.schema,
        };
        other.log.store.append(&head, &draft).unwrap();
    }
    other.success(&["attempt", "edit", attempt, "--note", note]);
    let event = other.log.snapshot().unwrap().events.pop().unwrap();
    EventDraft {
        id: event.id,
        at: event.at,
        actor: event.actor,
        payload: event.payload,
        schema: event.schema,
    }
}

/// A write that loses the append to another writer is never replayed against
/// another head. It says that it had no effect in a form that nobody can take for
/// success, and reading and running it again settles it.
#[test]
fn a_mutation_that_loses_the_race_says_it_wrote_nothing() {
    let mut project = TestProject::over(Raced {
        inner: MemoryStore::new(),
        rival: None,
    });
    let work = text(
        &project.success(&["work", "add", "--title", "Raced"]),
        "work_id",
    );
    let attempt = text(&project.success(&["work", "start", &work]), "attempt_id");

    project.log.store.rival = Some(milestone(&project, &attempt, "worker milestone"));
    let lost = project.failure(&["work", "block", &work, "--why", "paused for the worker"]);
    assert_eq!(
        told(&lost),
        "error [head_conflict]: nothing was appended: `work.changed` lost the \
         compare-and-append to another writer, which moved the shared log from 2 to 3; \
         reread and run the command again\n  appended: false\n  current_head: 3\n  \
         event: work.changed\n  expected_head: 2"
    );

    // Nothing was written, so the work is still open.
    assert_eq!(
        text(&project.success(&["show", &work]), "current.state"),
        "open"
    );

    project.log.store.rival = Some(milestone(&project, &attempt, "another milestone"));
    let structured = project
        .failure(&["work", "block", &work, "--why", "paused for the worker"])
        .json();
    assert_eq!(text(&structured, "schema"), "alder.error.v0");
    assert_eq!(value(&structured, "ok"), &Json::Bool(false));
    assert_eq!(text(&structured, "code"), "head_conflict");
    assert_eq!(value(&structured, "context.appended"), &Json::Bool(false));
    assert_eq!(text(&structured, "context.event"), "work.changed");
    assert_eq!(count(&structured, "context.expected_head"), 3);
    assert_eq!(count(&structured, "context.current_head"), 4);

    // Reading and running again settles it, with exactly one block.
    let blocked = project.success(&["work", "block", &work, "--why", "paused for the worker"]);
    assert_eq!(text(&blocked, "work_id"), work);
    let shown = project.success(&["show", &work]);
    assert_eq!(text(&shown, "current.state"), "blocked");
    assert_eq!(text(&shown, "current.block_reason"), "paused for the worker");
}

/// The session of the README, with the IDs that it gives.
#[test]
fn a_worked_session_reads_as_documented() {
    let mut project = TestProject::new();
    let first = project.human(&[
        "work",
        "add",
        "--title",
        "Document the parser",
        "--spec",
        "README.md",
        "--priority",
        "60",
        "--check",
        "fmt:cargo fmt --check",
        "--check",
        "tests:cargo test --workspace",
    ]);
    let attempt = format!("{first}-attempt-1");
    assert_eq!(project.human(&["work", "start", &first]), attempt);
    assert_eq!(
        project.human(&[
            "attempt",
            "edit",
            &attempt,
            "--handle",
            "process:local-4242",
            "--meta",
            "host=builder-1",
        ]),
        format!("{attempt}  bound process:local-4242")
    );
    assert_eq!(
        project.human(&[
            "attempt",
            "edit",
            &attempt,
            "--failed",
            "tests",
            "--evidence",
            "cargo test --workspace: parser fixture fails",
            "--note",
            "Reproduced the parser failure.",
        ]),
        format!("{attempt}  updated")
    );
    assert_eq!(
        project.human(&[
            "attempt",
            "end",
            &attempt,
            "--outcome",
            "failed",
            "--why",
            "The failing test needs a new parser design.",
        ]),
        format!("{attempt}  ended failed")
    );
    let question = format!("{first}-question-1");
    assert_eq!(
        project.human(&[
            "work",
            "ask",
            &first,
            "Should the parser accept blank headings?"
        ]),
        question
    );
    assert_eq!(
        project.human(&[
            "question",
            "answer",
            &question,
            "No; reject them with a diagnostic."
        ]),
        format!("{question}  answered")
    );
    assert_eq!(
        project.human(&["loop", "use", "gpt-5.6-terra"]),
        "loop engine gpt-5.6-terra"
    );
    assert_eq!(
        project.human(&["loop", "rotate", "--why", "Engine upgraded."]),
        "rotation requested"
    );
    let second = project.human(&[
        "work",
        "add",
        "--title",
        "Refresh the release notes",
        "--priority",
        "30",
        "--check",
        "docs:release notes reviewed",
    ]);
    assert_eq!(
        project.human(&["status", "--section", "ready"]),
        format!(
            "head 10\n\nloop\n  engine gpt-5.6-terra\n\nready\n  {second}  Refresh the release \
             notes  priority 30"
        )
    );
    assert_eq!(
        project.human(&["next"]),
        format!("{second}  Refresh the release notes  priority 30")
    );
    let shown = project.run(&["show", &question]).unwrap();
    let current = shown.pretty.unwrap();
    let mut keys: Vec<&str> = match &current {
        Json::Object(members) => members.iter().map(|(key, _)| key.as_str()).collect(),
        other => panic!("expected an object, not {other:?}"),
    };
    keys.sort_unstable();
    assert_eq!(
        keys,
        vec![
            "answer",
            "answered_by",
            "answered_seq",
            "answers",
            "asked_seq",
            "id",
            "stranded",
            "text",
            "work_id"
        ]
    );
    let at = Instant::read("2099-01-01T00:00:00Z").unwrap();
    let snapshot = project.log.snapshot().unwrap();
    assert!(status_at(&snapshot, None, true, &[], &vec![], at).is_ok());
    assert_eq!(
        snapshot.state.work.get(&first).unwrap().state,
        WorkState::Blocked
    );
}

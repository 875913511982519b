//! The log of a project: what its statements do, and what is told of those that
//! fail.

use std::collections::BTreeSet;

use alder::attempt::{AttemptOutcome, AttemptState, CheckStatus};
use alder::catalog::{Catalog, Replica};
use alder::change::{
    prepare_change, AddWorkInput, ChangeMode, EditWorkInput, GraphChangeDocument, PreparedChange,
};
use alder::error::{AlderError, Result};
use alder::event::{
    Event, EventDraft, EventPayload, LegacyHandoffDefinition, LoopEventPayload, WorkEventPayload,
};
use alder::json::Json;
use alder::log::{work_id_available, AppendHook, ObservationAppend, ProjectLog};
use alder::observation::ObservationKey;
use alder::store::{head_conflict, AppendResult, Head, MemoryStore, Store};
use alder::work::{CheckDefinition, WorkDefinition, WorkState, WorkStateChange};

#[test]
fn log_attempts_consume_ordinals_and_late_updates_are_rejected() {
    let mut log = ProjectLog::new(MemoryStore::new(), "hm", "test");
    let (_, work) = log
        .add_work("work".to_owned(), None, 0, vec![], vec![])
        .unwrap();
    let (_, first) = log.start(&work, None, Catalog::new()).unwrap();
    log.end_attempt(
        &first,
        AttemptOutcome::NotStarted,
        "launch failed".to_owned(),
    )
    .unwrap();
    let (_, second) = log.start(&work, None, Catalog::new()).unwrap();
    assert!(second.ends_with("-attempt-2"));
    let error = log
        .update_attempt(&first, None, Catalog::new(), Some("late".to_owned()), vec![])
        .unwrap_err();
    assert_eq!(error.code, "attempt_ended");
}

#[test]
fn log_asking_blocks_and_answering_does_not_unblock() {
    let mut log = ProjectLog::new(MemoryStore::new(), "hm", "test");
    let (_, work) = log
        .add_work("work".to_owned(), None, 0, vec![], vec![])
        .unwrap();
    let (_, question) = log.ask(&work, "which path?".to_owned()).unwrap();
    log.answer(&question, "path A".to_owned()).unwrap();
    let snapshot = log.snapshot().unwrap();
    assert_eq!(
        snapshot.state.work.get(&work).unwrap().state,
        WorkState::Blocked
    );
    assert_eq!(
        snapshot
            .state
            .questions
            .get(&question)
            .unwrap()
            .answer
            .as_deref(),
        Some("path A")
    );
}

#[test]
fn log_later_attempt_gets_the_complete_check_contract() {
    let mut log = ProjectLog::new(MemoryStore::new(), "hm", "test");
    let (_, work) = log
        .add_work(
            "work".to_owned(),
            None,
            0,
            vec![],
            vec![
                CheckDefinition {
                    key: "tests".to_owned(),
                    description: "tests pass".to_owned(),
                },
                CheckDefinition {
                    key: "review".to_owned(),
                    description: "review passes".to_owned(),
                },
            ],
        )
        .unwrap();
    let (_, first) = log.start(&work, None, Catalog::new()).unwrap();
    log.end_attempt(&first, AttemptOutcome::Failed, "failed".to_owned())
        .unwrap();
    let (_, second) = log.start(&work, None, Catalog::new()).unwrap();
    let snapshot = log.snapshot().unwrap();
    let checks = &snapshot.state.attempts.get(&second).unwrap().checks;
    assert_eq!(checks.len(), 2);
    assert!((0..checks.len()).all(|index| checks.value_at(index).status == CheckStatus::Pending));
}

#[test]
fn log_reopening_a_prerequisite_rejects_active_downstream_work() {
    let mut log = ProjectLog::new(MemoryStore::new(), "hm", "test");
    let (_, prerequisite) = log
        .add_work("A".to_owned(), None, 0, vec![], vec![])
        .unwrap();
    let (_, first_attempt) = log.start(&prerequisite, None, Catalog::new()).unwrap();
    log.finish(&prerequisite, Some(first_attempt), false, None)
        .unwrap();
    let (_, downstream) = log
        .add_work("B".to_owned(), None, 0, vec![prerequisite.clone()], vec![])
        .unwrap();
    let (_, downstream_attempt) = log.start(&downstream, None, Catalog::new()).unwrap();
    let error = log
        .reopen(&prerequisite, "regressed".to_owned())
        .unwrap_err();
    assert_eq!(error.code, "active_downstream");
    assert_eq!(
        error.context.get("active_attempts"),
        Some(&Json::List(vec![Json::text(&downstream_attempt)]))
    );
}

#[test]
fn log_dropping_active_work_ends_the_named_attempt_atomically() {
    let mut log = ProjectLog::new(MemoryStore::new(), "hm", "test");
    let (_, work) = log
        .add_work("work".to_owned(), None, 0, vec![], vec![])
        .unwrap();
    let (_, attempt) = log.start(&work, None, Catalog::new()).unwrap();
    log.drop_work(
        &work,
        Some(attempt.clone()),
        Some(AttemptOutcome::Cancelled),
        "no longer useful".to_owned(),
    )
    .unwrap();
    let snapshot = log.snapshot().unwrap();
    assert_eq!(
        snapshot.state.work.get(&work).unwrap().state,
        WorkState::Dropped
    );
    assert_eq!(
        snapshot.state.attempts.get(&attempt).unwrap().outcome,
        Some(AttemptOutcome::Cancelled)
    );
    assert_eq!(
        snapshot.events.last().unwrap().payload.event_type(),
        "work.dropped"
    );
}

#[test]
fn log_revised_answers_keep_history_and_still_require_explicit_unblock() {
    let mut log = ProjectLog::new(MemoryStore::new(), "hm", "test");
    let (_, work) = log
        .add_work("work".to_owned(), None, 0, vec![], vec![])
        .unwrap();
    let (_, question) = log.ask(&work, "which?".to_owned()).unwrap();
    log.answer(&question, "A".to_owned()).unwrap();
    log.answer(&question, "B".to_owned()).unwrap();
    let snapshot = log.snapshot().unwrap();
    assert_eq!(
        snapshot
            .state
            .questions
            .get(&question)
            .unwrap()
            .answers
            .len(),
        2
    );
    assert_eq!(
        snapshot.state.work.get(&work).unwrap().state,
        WorkState::Blocked
    );

    log.set_work_state(
        &work,
        WorkStateChange::Unblock {
            reason: "decision incorporated".to_owned(),
        },
    )
    .unwrap();
    assert_eq!(
        log.snapshot().unwrap().state.work.get(&work).unwrap().state,
        WorkState::Open
    );
}

#[test]
fn log_external_completion_is_distinct_and_needs_evidence() {
    let mut log = ProjectLog::new(MemoryStore::new(), "hm", "test");
    let (_, work) = log
        .add_work("work".to_owned(), None, 0, vec![], vec![])
        .unwrap();
    let missing = log.finish(&work, None, true, None).unwrap_err();
    assert_eq!(missing.code, "validation_failed");
    log.finish(&work, None, true, Some("merged outside Alder".to_owned()))
        .unwrap();
    let snapshot = log.snapshot().unwrap();
    match &snapshot.events.last().unwrap().payload {
        EventPayload::Work(WorkEventPayload::WorkFinished { external, .. }) => {
            assert!(*external)
        }
        _ => panic!("expected external work finish"),
    }
}

#[test]
fn log_starts_report_every_unmet_dependency_and_questions_are_per_work() {
    let mut log = ProjectLog::new(MemoryStore::new(), "hm", "test");
    let (_, prerequisite) = log
        .add_work("prerequisite".to_owned(), None, 0, vec![], vec![])
        .unwrap();
    let (_, dependent) = log
        .add_work(
            "dependent".to_owned(),
            None,
            0,
            vec![prerequisite.clone()],
            vec![],
        )
        .unwrap();

    let error = log.start(&dependent, None, Catalog::new()).unwrap_err();
    assert_eq!(error.code, "work_not_ready");
    assert_eq!(
        error.context.get("unmet_dependencies"),
        Some(&Json::List(vec![Json::text(&prerequisite)]))
    );

    let (_, first) = log.ask(&dependent, "first?".to_owned()).unwrap();
    let (_, second) = log.ask(&dependent, "second?".to_owned()).unwrap();
    let (_, other) = log.ask(&prerequisite, "other?".to_owned()).unwrap();
    assert_eq!(first, format!("{dependent}-question-1"));
    assert_eq!(second, format!("{dependent}-question-2"));
    assert_eq!(other, format!("{prerequisite}-question-1"));
    assert_eq!(
        log.ask("hm-missing", "missing?".to_owned())
            .unwrap_err()
            .code,
        "not_found"
    );
}

#[test]
fn log_change_allocation_rejects_both_persisted_and_batch_collisions() {
    let mut log = ProjectLog::new(MemoryStore::new(), "hm", "test");
    let (_, persisted) = log
        .add_work("persisted".to_owned(), None, 0, vec![], vec![])
        .unwrap();
    let snapshot = log.snapshot().unwrap();
    let allocated = vec!["hm-batch".to_owned()];

    assert!(!work_id_available(&snapshot.state, &allocated, &persisted));
    assert!(!work_id_available(&snapshot.state, &allocated, "hm-batch"));
    assert!(work_id_available(&snapshot.state, &allocated, "hm-unused"));
}

fn object(members: Vec<(&str, Json)>) -> Json {
    let mut object = Json::object();
    for (key, value) in members {
        object = object.with(key, value);
    }
    object
}

/// Every statement reaches the store through one append, and that refuses what is
/// decode-only history before anything is staged.
#[test]
fn no_append_path_can_produce_a_pass_or_other_legacy_event() {
    let mut log = ProjectLog::new(MemoryStore::new(), "hm", "alderd");
    let legacy = [
        EventPayload::Loop(LoopEventPayload::LegacyPassStarted(object(vec![(
            "pass",
            object(vec![("id", Json::text("hm-pass-1"))]),
        )]))),
        EventPayload::Loop(LoopEventPayload::LegacyPassEnded(object(vec![
            ("pass_id", Json::text("hm-pass-1")),
            ("outcome", Json::text("ok")),
        ]))),
        EventPayload::Work(WorkEventPayload::LegacyHandoffSubmitted {
            handoff: LegacyHandoffDefinition {
                id: "hm-handoff-1".to_owned(),
                title: "handoff".to_owned(),
                artifact_ref: "ref".to_owned(),
                note: None,
            },
        }),
        EventPayload::Work(WorkEventPayload::LegacyHandoffIntegrated {
            handoff_id: "hm-handoff-1".to_owned(),
            work: WorkDefinition {
                id: "hm-1".to_owned(),
                title: "work".to_owned(),
                spec: None,
                priority: 0,
                requires: Vec::new(),
                checks: Vec::new(),
            },
        }),
        EventPayload::Work(WorkEventPayload::LegacyHandoffWithdrawn {
            handoff_id: "hm-handoff-1".to_owned(),
            why: "reason".to_owned(),
        }),
    ];
    for payload in legacy {
        let name = payload.event_type();
        let snapshot = log.snapshot().unwrap();
        let error = log.append_payload(&snapshot, payload).unwrap_err();
        assert_eq!(error.code, "legacy_event", "{name}");
        assert_eq!(
            error.context.get("appended"),
            Some(&Json::Bool(false)),
            "{name}"
        );
        assert!(
            error.message.starts_with("nothing was appended: "),
            "{name}: {}",
            error.message
        );
    }
    // Nothing reached the store.
    assert_eq!(log.snapshot().unwrap().head.sequence(), 0);
}

#[test]
fn loop_controls_and_work_state_verbs_append_their_own_events() {
    let mut log = ProjectLog::new(MemoryStore::new(), "hm", "operator");
    let (_, work) = log
        .add_work("work".to_owned(), None, 0, vec![], vec![])
        .unwrap();

    log.pause_loop(Some("release freeze".to_owned())).unwrap();
    log.select_engine("codex".to_owned()).unwrap();
    log.request_rotation(None).unwrap();
    log.request_nudge(None).unwrap();
    let state = log.snapshot().unwrap().state;
    assert!(state.loop_control.paused);
    assert_eq!(state.loop_control.engine.as_deref(), Some("codex"));
    assert_eq!(state.loop_control.rotate_requested_seq, Some(4));
    assert_eq!(state.loop_control.nudge_requested_seq, Some(5));

    log.resume_loop().unwrap();
    assert!(!log.snapshot().unwrap().state.loop_control.paused);

    log.set_work_state(
        &work,
        WorkStateChange::Block {
            reason: "credentials missing".to_owned(),
            until: None,
        },
    )
    .unwrap();
    assert_eq!(
        log.snapshot().unwrap().state.work.get(&work).unwrap().state,
        WorkState::Blocked
    );
    log.set_work_state(
        &work,
        WorkStateChange::Unblock {
            reason: "credentials installed".to_owned(),
        },
    )
    .unwrap();
    assert_eq!(
        log.snapshot().unwrap().state.work.get(&work).unwrap().state,
        WorkState::Open
    );
    assert_eq!(
        log.set_work_state(
            "hm-missing",
            WorkStateChange::Block {
                reason: "reason".to_owned(),
                until: None,
            },
        )
        .unwrap_err()
        .code,
        "not_found"
    );
}

/// A store that, while it is armed, loses every append to another writer.
struct ConflictStore {
    inner: MemoryStore,
    armed: bool,
    calls: usize,
}

impl ConflictStore {
    fn new() -> ConflictStore {
        ConflictStore {
            inner: MemoryStore::new(),
            armed: false,
            calls: 0,
        }
    }
}

impl Store for ConflictStore {
    fn current_head(&self) -> Result<Head> {
        self.inner.current_head()
    }

    fn read_events(&self, head: &Head) -> Result<Vec<Event>> {
        self.inner.read_events(head)
    }

    fn append(&mut self, expected: &Head, draft: &EventDraft) -> Result<AppendResult> {
        self.calls += 1;
        if self.armed {
            Err(head_conflict(&Head::empty(), &Head::empty()))
        } else {
            self.inner.append(expected, draft)
        }
    }
}

/// Every event that a statement can append.
const EVERY_EVENT: [&str; 17] = [
    "observation.reported",
    "observation.retired",
    "work.changed",
    "work.finished",
    "work.dropped",
    "work.reopened",
    "attempt.started",
    "attempt.bound",
    "attempt.updated",
    "attempt.ended",
    "question.asked",
    "question.answered",
    "loop.paused",
    "loop.resumed",
    "loop.engine_selected",
    "loop.rotation_requested",
    "loop.nudge_requested",
];

fn told(result: Result<ObservationAppend>) -> Result<AppendResult> {
    match result {
        Err(error) => Err(error),
        Ok(ObservationAppend::Appended(result)) => Ok(*result),
        Ok(ObservationAppend::Unchanged { .. }) => panic!("a changed level was unexpectedly quiet"),
    }
}

fn named(result: Result<(AppendResult, String)>) -> Result<AppendResult> {
    result.map(|(result, _)| result)
}

/// Every statement reaches the store through the same call, so every one of them
/// loses a race the same way: nothing appended, said so first, and named.
#[test]
fn every_mutation_that_loses_the_race_says_it_appended_nothing() {
    let mut log = ProjectLog::new(ConflictStore::new(), "hm", "executor");
    let mut added = Vec::new();
    for title in ["work", "idle", "asked", "finished"] {
        let (_, id) = log
            .add_work(title.to_owned(), None, 0, vec![], vec![])
            .unwrap();
        added.push(id);
    }
    let (work, idle, asked, finished) = (&added[0], &added[1], &added[2], &added[3]);
    let (_, attempt) = log.start(work, None, Catalog::new()).unwrap();
    let (_, done_attempt) = log.start(finished, None, Catalog::new()).unwrap();
    log.finish(finished, Some(done_attempt), false, None)
        .unwrap();
    let (_, question) = log.ask(asked, "which path?".to_owned()).unwrap();
    let observation = ObservationKey {
        observer: "tmux".to_owned(),
        subject: "worker".to_owned(),
        field: "liveness".to_owned(),
    };
    log.report_observation(observation.replica(), "present".to_owned())
        .unwrap();
    let settled = log.snapshot().unwrap();
    let addition = GraphChangeDocument {
        why: Some("replan".to_owned()),
        add: vec![AddWorkInput {
            local: None,
            title: "added".to_owned(),
            spec: None,
            priority: 0,
            requires: vec![],
            checks: vec![],
        }],
        edit: vec![],
    };
    let prepared: PreparedChange = log
        .allocate_change(&settled, &addition, ChangeMode::AddOnly)
        .unwrap();

    log.store.armed = true;
    let mut losing: Vec<(&str, AlderError)> = Vec::new();
    let mut lose = |event: &'static str, result: Result<AppendResult>| {
        losing.push((event, result.unwrap_err()));
    };
    lose(
        "observation.reported",
        told(log.report_observation(observation.replica(), "absent".to_owned())),
    );
    lose(
        "observation.retired",
        told(log.retire_observation(observation.replica())),
    );
    lose(
        "work.changed",
        named(log.add_work("raced".to_owned(), None, 0, vec![], vec![])),
    );
    lose(
        "work.changed",
        log.commit_change(&settled, &addition, prepared),
    );
    lose(
        "work.changed",
        log.set_work_state(
            idle,
            WorkStateChange::Block {
                reason: "raced".to_owned(),
                until: None,
            },
        ),
    );
    lose("attempt.started", named(log.start(idle, None, Catalog::new())));
    lose(
        "attempt.bound",
        log.bind_attempt(&attempt, "tmux:worker".to_owned(), Catalog::new()),
    );
    lose(
        "attempt.updated",
        log.update_attempt(
            &attempt,
            None,
            Catalog::new(),
            Some("raced".to_owned()),
            vec![],
        ),
    );
    lose(
        "attempt.ended",
        log.end_attempt(&attempt, AttemptOutcome::Cancelled, "raced".to_owned()),
    );
    lose(
        "work.finished",
        log.finish(work, Some(attempt.clone()), false, None),
    );
    lose(
        "work.dropped",
        log.drop_work(
            work,
            Some(attempt.clone()),
            Some(AttemptOutcome::Cancelled),
            "raced".to_owned(),
        ),
    );
    lose("work.reopened", log.reopen(finished, "raced".to_owned()));
    lose("question.asked", named(log.ask(work, "another?".to_owned())));
    lose(
        "question.answered",
        log.answer(&question, "path A".to_owned()),
    );
    lose("loop.paused", log.pause_loop(Some("raced".to_owned())));
    lose("loop.resumed", log.resume_loop());
    lose(
        "loop.engine_selected",
        log.select_engine("codex".to_owned()),
    );
    lose("loop.rotation_requested", log.request_rotation(None));
    lose("loop.nudge_requested", log.request_nudge(None));

    let mut covered = BTreeSet::new();
    for (event, error) in &losing {
        assert_eq!(error.code, "head_conflict", "{event}");
        assert_eq!(
            error.context.get("appended"),
            Some(&Json::Bool(false)),
            "{event}"
        );
        assert_eq!(
            error.context.get("event"),
            Some(&Json::text(event)),
            "{event}"
        );
        assert!(
            error.message.starts_with("nothing was appended: "),
            "{event}: {}",
            error.message
        );
        assert!(error.message.contains(event), "{event}: {}", error.message);
        covered.insert(*event);
    }
    assert_eq!(
        covered,
        EVERY_EVENT.into_iter().collect::<BTreeSet<_>>(),
        "every event a statement can append has to be swept"
    );

    // Losing changed nothing: the log stands exactly where it stood.
    log.store.armed = false;
    let after = log.snapshot().unwrap();
    assert_eq!(after.head.sequence(), settled.head.sequence());
    assert_eq!(
        after.state.work.get(work).unwrap().state,
        settled.state.work.get(work).unwrap().state
    );
    assert_eq!(after.state.work.get(idle).unwrap().state, WorkState::Open);
    assert_eq!(
        after.state.work.get(asked).unwrap().state,
        WorkState::Blocked
    );
    assert_eq!(
        after.state.work.get(finished).unwrap().state,
        WorkState::Done
    );
    assert!(after.state.attempts.get(&attempt).unwrap().outcome.is_none());
    assert!(after.state.questions.get(&question).unwrap().answer.is_none());
}

/// Counts how often it was told.
struct Counter {
    told: usize,
}

impl AppendHook for Counter {
    fn appended(&mut self) {
        self.told += 1;
    }
}

#[test]
fn the_hook_hears_of_every_append_and_of_nothing_else() {
    let mut log =
        ProjectLog::new(ConflictStore::new(), "hm", "test").with_on_append(Counter { told: 0 });
    log.add_work("work".to_owned(), None, 0, vec![], vec![])
        .unwrap();
    assert_eq!(log.on_append.told, 1);
    assert!(log.reopen("hm-missing", "why".to_owned()).is_err());
    assert_eq!(log.on_append.told, 1);
    log.store.armed = true;
    assert!(log.pause_loop(None).is_err());
    assert_eq!(log.on_append.told, 1);
    assert_eq!(log.store().calls, 2);
}

#[test]
fn observations_are_tried_again_but_not_for_ever() {
    let mut log = ProjectLog::new(ConflictStore::new(), "hm", "test");
    log.store.armed = true;
    let key = ObservationKey {
        observer: "tmux".to_owned(),
        subject: "worker".to_owned(),
        field: "liveness".to_owned(),
    };
    let error = match log.report_observation(key, "present".to_owned()) {
        Err(error) => error,
        Ok(_) => panic!("an armed store takes nothing"),
    };
    assert_eq!(error.code, "head_conflict");
    assert_eq!(log.store.calls, 16);
}

#[test]
fn a_level_that_is_there_already_and_a_key_that_is_gone_are_no_news() {
    let mut log = ProjectLog::new(MemoryStore::new(), "hm", "test");
    let key = ObservationKey {
        observer: "github".to_owned(),
        subject: "owner/repo#171".to_owned(),
        field: "ci".to_owned(),
    };
    let appended = |result: Result<ObservationAppend>| {
        matches!(result.unwrap(), ObservationAppend::Appended(_))
    };
    assert!(!appended(log.retire_observation(key.replica())));
    assert!(appended(
        log.report_observation(key.replica(), "failing".to_owned())
    ));
    assert!(!appended(
        log.report_observation(key.replica(), "failing".to_owned())
    ));
    assert!(appended(
        log.report_observation(key.replica(), "passing".to_owned())
    ));
    assert!(appended(log.retire_observation(key.replica())));
    assert!(!appended(log.retire_observation(key)));
    assert_eq!(log.snapshot().unwrap().head.sequence(), 3);
}

#[test]
fn new_work_has_the_prefix_and_a_token_of_six_characters() {
    let mut log = ProjectLog::new(MemoryStore::new(), "hm", "test");
    let (result, first) = log
        .add_work("one".to_owned(), None, 0, vec![], vec![])
        .unwrap();
    let (_, second) = log
        .add_work("two".to_owned(), None, 0, vec![], vec![])
        .unwrap();
    assert_ne!(first, second);
    for id in [&first, &second] {
        assert!(id.starts_with("hm-"));
        assert_eq!(id.len(), "hm-".len() + 6);
        assert!(id[3..]
            .chars()
            .all(|c| c.is_ascii_lowercase() || c.is_ascii_digit()));
    }
    assert_eq!(result.event.id.len(), 26);
    assert!(result.event.at.seconds > 1_700_000_000);
    assert_eq!(result.event.actor, "test");
}

#[test]
fn work_of_another_prefix_is_refused() {
    let mut log = ProjectLog::new(MemoryStore::new(), "hm", "test");
    log.add_work("one".to_owned(), None, 0, vec![], vec![])
        .unwrap();
    let other = ProjectLog::new(log.store, "zz", "test");
    assert_eq!(other.snapshot().unwrap_err().code, "config_conflict");
}

#[test]
fn an_observation_made_again_leaves_the_log_and_the_hook_alone() {
    let mut log =
        ProjectLog::new(MemoryStore::new(), "hm", "test").with_on_append(Counter { told: 0 });
    let key = || ObservationKey {
        observer: "tmux".to_owned(),
        subject: "worker".to_owned(),
        field: "liveness".to_owned(),
    };
    let head = match log.report_observation(key(), "present".to_owned()).unwrap() {
        ObservationAppend::Appended(result) => result.head,
        ObservationAppend::Unchanged { .. } => panic!("a first level is news"),
    };
    match log.report_observation(key(), "present".to_owned()).unwrap() {
        ObservationAppend::Unchanged { head: at } => assert_eq!(at, head),
        ObservationAppend::Appended(_) => panic!("the level is known"),
    }
    assert_eq!(log.on_append.told, 1);
    assert!(matches!(
        log.retire_observation(key()).unwrap(),
        ObservationAppend::Appended(_)
    ));
    match log.retire_observation(key()).unwrap() {
        ObservationAppend::Unchanged { head } => assert_eq!(head.sequence(), 2),
        ObservationAppend::Appended(_) => panic!("the key is gone"),
    }
    assert_eq!(log.on_append.told, 2);
    assert_eq!(log.snapshot().unwrap().head.sequence(), 2);
}

#[test]
fn a_prepared_change_follows_its_document_and_applies_anywhere() {
    let mut log = ProjectLog::new(MemoryStore::new(), "hm", "test");
    let (_, old) = log
        .add_work("old".to_owned(), None, 0, vec![], vec![])
        .unwrap();
    let state = log.snapshot().unwrap().state;
    let add = |local: Option<&str>, requires: Vec<&str>| AddWorkInput {
        local: local.map(str::to_owned),
        title: "new".to_owned(),
        spec: None,
        priority: 0,
        requires: requires.into_iter().map(str::to_owned).collect(),
        checks: vec![],
    };
    let document = GraphChangeDocument {
        why: Some("more".to_owned()),
        add: vec![add(Some("base"), vec![]), add(None, vec!["$base", &old])],
        edit: vec![EditWorkInput {
            id: old.clone(),
            title: Some("older".to_owned()),
            spec: None,
            priority: None,
            add_requires: vec!["$base".to_owned()],
            remove_requires: vec![],
            add_checks: vec![],
            remove_checks: vec![],
            block: false,
            unblock: false,
        }],
    };
    let ids = vec!["hm-b".to_owned(), "hm-a".to_owned()];
    let prepared = prepare_change(&state, &document, ChangeMode::Edit, &ids).unwrap();
    assert_eq!(
        prepared.mappings,
        vec![
            ("base".to_owned(), "hm-b".to_owned()),
            ("new-2".to_owned(), "hm-a".to_owned()),
        ]
    );
    let targets: Vec<&str> = prepared.operations.iter().map(|o| o.id()).collect();
    assert_eq!(targets, vec!["hm-b", "hm-a", old.as_str()]);
    for seq in [1, 2, 7, u64::MAX] {
        let mut changed = state.replica();
        let event = Event {
            id: "event".to_owned(),
            seq,
            at: alder::instant::Instant { seconds: 0, nanos: 0 },
            actor: "test".to_owned(),
            payload: EventPayload::Work(WorkEventPayload::WorkChanged {
                why: document.why.clone(),
                operations: prepared.operations.iter().map(|o| o.replica()).collect(),
            }),
            schema: "alder.event.v0".to_owned(),
        };
        changed.apply(&event).unwrap();
        let mut needs = vec!["hm-b".to_owned(), old.clone()];
        needs.sort();
        assert_eq!(changed.work.get("hm-a").unwrap().requires, needs);
        assert_eq!(
            changed.work.get(old.as_str()).unwrap().requires,
            vec!["hm-b".to_owned()]
        );
    }
}

#[test]
fn what_is_kept_of_an_attempt_agrees_with_its_state() {
    let check = |key: &str| CheckDefinition {
        key: key.to_owned(),
        description: "passes".to_owned(),
    };
    let mut log = ProjectLog::new(MemoryStore::new(), "hm", "test");
    let (_, work) = log
        .add_work("work".to_owned(), None, 0, vec![], vec![check("tests"), check("lint")])
        .unwrap();
    let (_, id) = log.start(&work, None, Catalog::new()).unwrap();
    let state = log.snapshot().unwrap().state;
    let attempt = state.attempts.get(id.as_str()).unwrap();
    assert_eq!((attempt.state, attempt.handle.as_deref()), (AttemptState::Starting, None));
    log.bind_attempt(&id, "tmux:one".to_owned(), Catalog::new())
        .unwrap();
    let state = log.snapshot().unwrap().state;
    let item = state.work.get(work.as_str()).unwrap();
    let keys: Vec<&str> = item.checks.iter().map(|c| c.key.as_str()).collect();
    assert_eq!(keys, vec!["lint", "tests"]);
    let attempt = state.attempts.get(id.as_str()).unwrap();
    assert_eq!(attempt.checks.len(), 2);
    assert!(attempt.checks.contains_key("lint") && attempt.checks.contains_key("tests"));
    assert_eq!((attempt.started_seq, attempt.bound_seq, attempt.ended_seq), (2, Some(3), None));
    assert!(attempt.outcome.is_none());
    log.end_attempt(&id, AttemptOutcome::Lost, "gone".to_owned())
        .unwrap();
    log.ask(&work, "again?".to_owned()).unwrap();
    let state = log.snapshot().unwrap().state;
    let attempt = state.attempts.get(id.as_str()).unwrap();
    assert_eq!((attempt.ended_seq, attempt.updated_seq), (Some(4), 4));
    assert_eq!(attempt.outcome, Some(AttemptOutcome::Lost));
    let item = state.work.get(work.as_str()).unwrap();
    assert_eq!((item.opened_seq, item.changed_seq), (1, 5));
}

#[test]
fn the_answer_is_the_last_of_the_answers() {
    let mut log = ProjectLog::new(MemoryStore::new(), "hm", "human");
    let (_, work) = log
        .add_work("work".to_owned(), None, 0, vec![], vec![])
        .unwrap();
    let (_, id) = log.ask(&work, "which path?".to_owned()).unwrap();
    let state = log.snapshot().unwrap().state;
    let question = state.questions.get(id.as_str()).unwrap();
    assert!(question.answers.is_empty() && question.answered_by.is_none());
    log.answer(&id, "path A".to_owned()).unwrap();
    log.answer(&id, "path B".to_owned()).unwrap();
    let state = log.snapshot().unwrap().state;
    let question = state.questions.get(id.as_str()).unwrap();
    assert_eq!(question.answers.len(), 2);
    assert_eq!(question.answer.as_deref(), Some("path B"));
    assert_eq!(question.answered_seq, Some(4));
    assert_eq!(question.answered_by.as_deref(), Some("human"));

    log.pause_loop(Some("freeze".to_owned())).unwrap();
    log.resume_loop().unwrap();
    let control = log.snapshot().unwrap().state.loop_control;
    assert!(!control.paused && control.pause_reason.is_none());
}

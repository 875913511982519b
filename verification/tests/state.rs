//! Folding logs into projects.

use alder::attempt::{
    AttemptDefinition, AttemptOutcome, AttemptState, CheckStatus, CheckUpdate,
};
use alder::catalog::{Catalog, Replica};
use alder::event::{
    Event, EventPayload, LegacyHandoffDefinition, LoopEventPayload, WorkEventPayload,
};
use alder::instant::Instant;
use alder::json::Json;
use alder::project::ProjectState;
use alder::question::QuestionDefinition;
use alder::state::validate_check;
use alder::work::{
    CheckDefinition, WorkDefinition, WorkOperation, WorkState, WorkStateChange,
};

fn event(seq: u64, payload: EventPayload) -> Event {
    Event {
        id: format!("event-{seq}"),
        seq,
        at: Instant::now(),
        actor: "test".to_owned(),
        payload,
        schema: "alder.event.v0".to_owned(),
    }
}

fn add(id: &str, requires: &[&str], checks: &[&str]) -> WorkOperation {
    WorkOperation::Add {
        work: WorkDefinition {
            id: id.to_owned(),
            title: id.to_owned(),
            spec: None,
            priority: 0,
            requires: requires.iter().map(|value| (*value).to_owned()).collect(),
            checks: checks
                .iter()
                .map(|key| CheckDefinition {
                    key: (*key).to_owned(),
                    description: format!("{key} passes"),
                })
                .collect(),
        },
    }
}

fn edit(id: &str) -> WorkOperation {
    WorkOperation::Edit {
        id: id.to_owned(),
        title: None,
        spec: None,
        priority: None,
        add_requires: Vec::new(),
        remove_requires: Vec::new(),
        add_checks: Vec::new(),
        remove_checks: Vec::new(),
        state_change: None,
    }
}

fn changed(why: Option<&str>, operations: Vec<WorkOperation>) -> EventPayload {
    EventPayload::Work(WorkEventPayload::WorkChanged {
        why: why.map(|why| why.to_owned()),
        operations,
    })
}

fn started(id: &str, work_id: &str) -> EventPayload {
    EventPayload::Work(WorkEventPayload::AttemptStarted {
        attempt: AttemptDefinition {
            id: id.to_owned(),
            work_id: work_id.to_owned(),
            tier: None,
            metadata: Catalog::new(),
        },
    })
}

fn updated(
    metadata: Catalog<String, Json>,
    note: Option<&str>,
    checks: Vec<CheckUpdate>,
) -> EventPayload {
    EventPayload::Work(WorkEventPayload::AttemptUpdated {
        attempt_id: "hm-a-attempt-1".to_owned(),
        tier: None,
        metadata,
        note: note.map(|note| note.to_owned()),
        checks,
    })
}

fn bound(attempt_id: &str, handle: &str) -> EventPayload {
    EventPayload::Work(WorkEventPayload::AttemptBound {
        attempt_id: attempt_id.to_owned(),
        handle: handle.to_owned(),
        metadata: Catalog::new(),
    })
}

fn finished(work_id: &str, attempt_id: Option<&str>, external: bool, evidence: Option<&str>) -> EventPayload {
    EventPayload::Work(WorkEventPayload::WorkFinished {
        work_id: work_id.to_owned(),
        attempt_id: attempt_id.map(|id| id.to_owned()),
        external,
        evidence: evidence.map(|text| text.to_owned()),
    })
}

fn with_state_change(id: &str, change: WorkStateChange) -> WorkOperation {
    let mut operation = edit(id);
    if let WorkOperation::Edit { state_change, .. } = &mut operation {
        *state_change = Some(change);
    }
    operation
}

fn check(key: &str, status: CheckStatus, evidence: &str) -> CheckUpdate {
    CheckUpdate {
        key: key.to_owned(),
        status,
        evidence: evidence.to_owned(),
    }
}

fn definition(key: &str, description: &str) -> CheckDefinition {
    CheckDefinition {
        key: key.to_owned(),
        description: description.to_owned(),
    }
}

#[test]
fn readiness_and_attempt_checks_are_folded() {
    let events = vec![
        event(
            1,
            changed(
                None,
                vec![add("hm-a", &[], &["tests"]), add("hm-b", &["hm-a"], &[])],
            ),
        ),
        event(2, started("hm-a-attempt-1", "hm-a")),
    ];
    let before_attempt = ProjectState::fold(&events[..1]).unwrap();
    assert_eq!(
        before_attempt
            .ready()
            .iter()
            .map(|work| work.id.as_str())
            .collect::<Vec<_>>(),
        ["hm-a"]
    );
    let state = ProjectState::fold(&events).unwrap();
    assert!(state.ready().is_empty());
    assert_eq!(
        state
            .attempts
            .get("hm-a-attempt-1")
            .unwrap()
            .checks
            .get("tests")
            .unwrap()
            .status,
        CheckStatus::Pending
    );
}

#[test]
fn cycle_rejects_the_whole_change() {
    let mut state = ProjectState::default();
    state
        .apply(&event(
            1,
            changed(
                None,
                vec![add("hm-a", &["hm-b"], &[]), add("hm-b", &["hm-a"], &[])],
            ),
        ))
        .unwrap_err();
    assert!(state.work.is_empty());
}

#[test]
fn dropped_dependency_is_not_ready() {
    let events = vec![
        event(
            1,
            changed(
                None,
                vec![add("hm-a", &[], &[]), add("hm-b", &["hm-a"], &[])],
            ),
        ),
        event(
            2,
            EventPayload::Work(WorkEventPayload::WorkDropped {
                work_id: "hm-a".to_owned(),
                attempt_id: None,
                outcome: None,
                why: "no longer needed".to_owned(),
            }),
        ),
    ];
    let state = ProjectState::fold(&events).unwrap();
    assert!(!state.is_ready("hm-b"));
}

#[test]
fn fold_rejects_malformed_envelopes_before_changing_state() {
    let payload = changed(None, vec![add("hm-a", &[], &[])]);
    let mut wrong_sequence = event(2, payload.replica());
    assert_eq!(
        ProjectState::fold(&[wrong_sequence.replica()])
            .unwrap_err()
            .code,
        "invalid_log"
    );
    wrong_sequence.seq = 1;
    wrong_sequence.schema = "alder.event.v1".to_owned();
    assert_eq!(
        ProjectState::fold(&[wrong_sequence]).unwrap_err().code,
        "invalid_log"
    );
    let first = event(1, payload.replica());
    let mut duplicate = event(2, payload);
    duplicate.id = first.id.clone();
    assert_eq!(
        ProjectState::fold(&[first, duplicate]).unwrap_err().code,
        "invalid_log"
    );
}

#[test]
fn legacy_handoff_submission_and_withdrawal_are_inert_history() {
    let mut state = ProjectState::default();
    state
        .apply(&event(
            1,
            EventPayload::Work(WorkEventPayload::LegacyHandoffSubmitted {
                handoff: LegacyHandoffDefinition {
                    id: "hm-handoff-one".to_owned(),
                    title: "handoff".to_owned(),
                    artifact_ref: "branch".to_owned(),
                    note: None,
                },
            }),
        ))
        .unwrap();
    state
        .apply(&event(
            2,
            EventPayload::Work(WorkEventPayload::LegacyHandoffWithdrawn {
                handoff_id: "hm-handoff-one".to_owned(),
                why: "superseded".to_owned(),
            }),
        ))
        .unwrap();
    assert!(state.work.is_empty());
}

#[test]
fn active_attempt_freezes_every_dependency_and_check_edit() {
    let mut state = ProjectState::default();
    state
        .apply(&event(
            1,
            changed(
                None,
                vec![add("hm-a", &[], &["old"]), add("hm-b", &[], &[])],
            ),
        ))
        .unwrap();
    state
        .apply(&event(2, started("hm-a-attempt-1", "hm-a")))
        .unwrap();

    let mut edits = Vec::new();
    let mut operation = edit("hm-a");
    if let WorkOperation::Edit { add_requires, .. } = &mut operation {
        add_requires.push("hm-b".to_owned());
    }
    edits.push(operation);
    let mut operation = edit("hm-a");
    if let WorkOperation::Edit {
        remove_requires, ..
    } = &mut operation
    {
        remove_requires.push("hm-b".to_owned());
    }
    edits.push(operation);
    let mut operation = edit("hm-a");
    if let WorkOperation::Edit { add_checks, .. } = &mut operation {
        add_checks.push(definition("new", "new check"));
    }
    edits.push(operation);
    let mut operation = edit("hm-a");
    if let WorkOperation::Edit { remove_checks, .. } = &mut operation {
        remove_checks.push("old".to_owned());
    }
    edits.push(operation);

    for operation in edits {
        let mut candidate = state.replica();
        let error = candidate
            .apply(&event(
                3,
                changed(Some("change contract"), vec![operation]),
            ))
            .unwrap_err();
        assert_eq!(error.code, "active_attempt");
    }
}

#[test]
fn work_edits_apply_each_collection_change_without_cross_talk() {
    let mut state = ProjectState::default();
    state
        .apply(&event(
            1,
            changed(
                None,
                vec![
                    add("hm-a", &[], &[]),
                    add("hm-b", &["hm-a"], &["old"]),
                    add("hm-c", &[], &[]),
                ],
            ),
        ))
        .unwrap();
    let mut operation = edit("hm-b");
    if let WorkOperation::Edit {
        add_requires,
        remove_requires,
        add_checks,
        remove_checks,
        ..
    } = &mut operation
    {
        add_requires.push("hm-c".to_owned());
        remove_requires.push("hm-a".to_owned());
        add_checks.push(definition("new", "new passes"));
        remove_checks.push("old".to_owned());
    }
    state
        .apply(&event(
            2,
            changed(Some("update contract"), vec![operation]),
        ))
        .unwrap();
    assert_eq!(state.work.get("hm-b").unwrap().requires, ["hm-c"]);
    assert_eq!(
        state
            .work
            .get("hm-b")
            .unwrap()
            .checks
            .iter()
            .map(|check| check.key.as_str())
            .collect::<Vec<_>>(),
        ["new"]
    );

    let mut duplicate = edit("hm-b");
    if let WorkOperation::Edit { add_checks, .. } = &mut duplicate {
        add_checks.push(definition("new", "duplicate"));
    }
    assert!(state
        .apply(&event(3, changed(Some("duplicate"), vec![duplicate])))
        .is_err());
}

#[test]
fn questions_block_only_their_work_until_answered() {
    let mut state = ProjectState::default();
    state
        .apply(&event(
            1,
            changed(None, vec![add("hm-a", &[], &[]), add("hm-b", &[], &[])]),
        ))
        .unwrap();
    state
        .apply(&event(
            2,
            EventPayload::Work(WorkEventPayload::QuestionAsked {
                question: QuestionDefinition {
                    id: "hm-a-question-1".to_owned(),
                    work_id: "hm-a".to_owned(),
                    text: "which?".to_owned(),
                },
            }),
        ))
        .unwrap();

    let unblock_a = with_state_change(
        "hm-a",
        WorkStateChange::Unblock {
            reason: "try".to_owned(),
        },
    );
    assert_eq!(
        state
            .apply(&event(3, changed(Some("try"), vec![unblock_a.replica()])))
            .unwrap_err()
            .code,
        "unanswered_question"
    );

    let block_b = with_state_change(
        "hm-b",
        WorkStateChange::Block {
            reason: "pause".to_owned(),
            until: None,
        },
    );
    state
        .apply(&event(4, changed(Some("pause"), vec![block_b])))
        .unwrap();
    let unblock_b = with_state_change(
        "hm-b",
        WorkStateChange::Unblock {
            reason: "resume".to_owned(),
        },
    );
    state
        .apply(&event(5, changed(Some("resume"), vec![unblock_b])))
        .unwrap();
    assert_eq!(state.work.get("hm-b").unwrap().state, WorkState::Open);

    state
        .apply(&event(
            6,
            EventPayload::Work(WorkEventPayload::QuestionAnswered {
                question_id: "hm-a-question-1".to_owned(),
                answer: "A".to_owned(),
            }),
        ))
        .unwrap();
    state
        .apply(&event(7, changed(Some("resolved"), vec![unblock_a])))
        .unwrap();
    assert_eq!(state.work.get("hm-a").unwrap().state, WorkState::Open);
}

fn one_started() -> ProjectState {
    let mut state = ProjectState::default();
    state
        .apply(&event(1, changed(None, vec![add("hm-a", &[], &["test"])])))
        .unwrap();
    state
        .apply(&event(2, started("hm-a-attempt-1", "hm-a")))
        .unwrap();
    state
}

#[test]
fn an_attempt_update_activates_a_starting_attempt() {
    let mut state = one_started();
    state
        .apply(&event(
            3,
            updated(
                Catalog::new(),
                Some("working"),
                vec![check("test", CheckStatus::Satisfied, "CI")],
            ),
        ))
        .unwrap();
    let attempt = state.attempts.get("hm-a-attempt-1").unwrap();
    assert_eq!(attempt.state, AttemptState::Active);
    assert_eq!(
        attempt.checks.get("test").unwrap().status,
        CheckStatus::Satisfied
    );

    let mut metadata = Catalog::new();
    metadata.insert("engine".to_owned(), Json::Text("opus".to_owned()));
    let mut metadata_only = one_started();
    metadata_only
        .apply(&event(3, updated(metadata, None, vec![])))
        .unwrap();
    assert_eq!(
        metadata_only
            .attempts
            .get("hm-a-attempt-1")
            .unwrap()
            .metadata
            .get("engine"),
        Some(&Json::Text("opus".to_owned()))
    );

    let mut note_only = one_started();
    note_only
        .apply(&event(3, updated(Catalog::new(), Some("working"), vec![])))
        .unwrap();
    assert_eq!(
        note_only
            .attempts
            .get("hm-a-attempt-1")
            .unwrap()
            .note
            .as_deref(),
        Some("working")
    );

    let mut check_only = one_started();
    check_only
        .apply(&event(
            3,
            updated(
                Catalog::new(),
                None,
                vec![check("test", CheckStatus::Failed, "CI")],
            ),
        ))
        .unwrap();
    assert_eq!(
        check_only
            .attempts
            .get("hm-a-attempt-1")
            .unwrap()
            .checks
            .get("test")
            .unwrap()
            .status,
        CheckStatus::Failed
    );

    let mut empty = one_started();
    assert_eq!(
        empty
            .apply(&event(3, updated(Catalog::new(), None, vec![])))
            .unwrap_err()
            .message,
        "an attempt update must change a tier, metadata, a note, or a check"
    );
}

#[test]
fn a_handle_held_only_by_ended_attempts_may_be_rebound() {
    let mut state = ProjectState::default();
    state
        .apply(&event(
            1,
            changed(None, vec![add("hm-a", &[], &[]), add("hm-b", &[], &[])]),
        ))
        .unwrap();
    state
        .apply(&event(2, started("hm-a-attempt-1", "hm-a")))
        .unwrap();
    state
        .apply(&event(3, bound("hm-a-attempt-1", "tmux:worker")))
        .unwrap();
    state
        .apply(&event(4, started("hm-b-attempt-1", "hm-b")))
        .unwrap();

    // A live attempt still holds the handle: a second attempt cannot bind the
    // same one.
    let rejected = state
        .replica()
        .apply(&event(5, bound("hm-b-attempt-1", "tmux:worker")))
        .unwrap_err();
    assert_eq!(rejected.message, "handle `tmux:worker` is already attached");

    // Once the holding attempt ends, the same handle is free to reuse.
    state
        .apply(&event(
            5,
            EventPayload::Work(WorkEventPayload::AttemptEnded {
                attempt_id: "hm-a-attempt-1".to_owned(),
                outcome: AttemptOutcome::Failed,
                why: "worker crashed".to_owned(),
            }),
        ))
        .unwrap();
    state
        .apply(&event(6, bound("hm-b-attempt-1", "tmux:worker")))
        .unwrap();
    assert_eq!(
        state
            .attempts
            .get("hm-b-attempt-1")
            .unwrap()
            .handle
            .as_deref(),
        Some("tmux:worker")
    );
}

#[test]
fn ordinary_finish_requires_every_check_to_be_satisfied() {
    let mut state = one_started();
    let finish = finished("hm-a", Some("hm-a-attempt-1"), false, None);
    assert_eq!(
        state
            .apply(&event(3, finish.replica()))
            .unwrap_err()
            .code,
        "incomplete_checks"
    );
    state
        .apply(&event(
            3,
            updated(
                Catalog::new(),
                None,
                vec![check("test", CheckStatus::Satisfied, "CI")],
            ),
        ))
        .unwrap();
    state.apply(&event(4, finish)).unwrap();
    assert_eq!(state.work.get("hm-a").unwrap().state, WorkState::Done);
}

#[test]
fn external_finish_rejects_either_form_of_attempt_association() {
    let mut state = ProjectState::default();
    state
        .apply(&event(
            1,
            changed(None, vec![add("hm-a", &[], &[]), add("hm-b", &[], &[])]),
        ))
        .unwrap();
    assert!(state
        .apply(&event(
            2,
            finished("hm-a", Some("not-active"), true, Some("proof")),
        ))
        .is_err());

    state
        .apply(&event(3, started("hm-b-attempt-1", "hm-b")))
        .unwrap();
    assert!(state
        .apply(&event(4, finished("hm-b", None, true, Some("proof"))))
        .is_err());
}

#[test]
fn graph_and_identity_helpers_cover_exact_boundaries() {
    let mut state = ProjectState::default();
    assert!(state
        .apply(&event(
            1,
            changed(
                None,
                vec![
                    add("hm-a", &[], &[]),
                    add("hm-b", &["hm-a", "hm-a"], &[]),
                ],
            ),
        ))
        .is_err());

    state
        .apply(&event(
            2,
            changed(
                None,
                vec![
                    add("hm-a", &[], &[]),
                    add("hm-b", &["hm-a"], &[]),
                    add("hm-c", &["hm-b"], &[]),
                    add("hm-unrelated", &[], &[]),
                ],
            ),
        ))
        .unwrap();
    assert_eq!(
        state.downstream("hm-a"),
        vec!["hm-b".to_owned(), "hm-c".to_owned()]
    );
    assert!(state.validate_prefix("hm").is_ok());
    assert!(state.validate_prefix("other").is_err());
    for invalid in [
        definition("", "description"),
        definition("key", ""),
        definition("has space", "description"),
        definition("has:colon", "description"),
    ] {
        assert!(validate_check(&invalid).is_err());
    }
    assert!(validate_check(&definition("tests", "tests pass")).is_ok());
}

fn object(members: Vec<(&str, Json)>) -> Json {
    let mut object = Json::object();
    for (key, value) in members {
        object = object.with(key, value);
    }
    object
}

/// An event from the time when the log spoke of its own readers.
fn legacy_pass(seq: u64, payload: LoopEventPayload) -> Event {
    Event {
        id: format!("legacy-{seq}"),
        seq,
        at: Instant::now(),
        actor: "alderd".to_owned(),
        payload: EventPayload::Loop(payload),
        schema: "alder.event.v0".to_owned(),
    }
}

#[test]
fn legacy_pass_events_fold_as_inert_history() {
    let mut state = ProjectState::default();
    state
        .apply(&legacy_pass(
            1,
            LoopEventPayload::LegacyPassStarted(object(vec![(
                "pass",
                object(vec![
                    ("id", Json::text("hm-pass-1")),
                    ("engine", Json::text("opus")),
                    ("handle", Json::text("tmux:alder-leader")),
                    ("triggers", Json::List(vec![Json::text("log")])),
                    ("at_head", Json::Int(0)),
                ]),
            )])),
        ))
        .unwrap();
    state
        .apply(&legacy_pass(
            2,
            LoopEventPayload::LegacyPassEnded(object(vec![
                ("pass_id", Json::text("hm-pass-1")),
                ("outcome", Json::text("ok")),
                ("report", Json::text("swept")),
                ("wake_at", Json::Null),
                ("rotate", Json::Bool(false)),
                ("why", Json::Null),
            ])),
        ))
        .unwrap();
    // Nothing folds: no object, no loop state, no constraint on order.
    assert!(state.work.is_empty());
    assert!(state.loop_control.rotate_requested_seq.is_none());
    // Two opens in a row replay as well.
    for (seq, id) in [(3, "hm-pass-2"), (4, "hm-pass-3")] {
        state
            .apply(&legacy_pass(
                seq,
                LoopEventPayload::LegacyPassStarted(object(vec![(
                    "pass",
                    object(vec![("id", Json::text(id))]),
                )])),
            ))
            .unwrap();
    }
}

#[test]
fn a_legacy_pass_end_that_asked_to_rotate_still_reads_as_a_request() {
    let mut state = ProjectState::default();
    state
        .apply(&legacy_pass(
            1,
            LoopEventPayload::LegacyPassEnded(object(vec![
                ("pass_id", Json::text("hm-pass-1")),
                ("outcome", Json::text("ok")),
                ("report", Json::Null),
                ("wake_at", Json::Null),
                ("rotate", Json::Bool(true)),
                ("why", Json::Null),
            ])),
        ))
        .unwrap();
    assert_eq!(state.loop_control.rotate_requested_seq, Some(1));
}

#[test]
fn state_rotation_and_nudge_requests_record_the_sequence_they_were_asked_at() {
    let mut state = ProjectState::default();
    assert!(state.loop_control.rotate_requested_seq.is_none());
    assert!(state.loop_control.nudge_requested_seq.is_none());

    let rotate = || EventPayload::Loop(LoopEventPayload::LoopRotationRequested { why: None });
    state.apply(&event(1, rotate())).unwrap();
    state
        .apply(&event(
            2,
            EventPayload::Loop(LoopEventPayload::LoopNudgeRequested { why: None }),
        ))
        .unwrap();
    assert_eq!(state.loop_control.rotate_requested_seq, Some(1));
    assert_eq!(state.loop_control.nudge_requested_seq, Some(2));

    // A later request replaces the recorded sequence.
    state.apply(&event(3, rotate())).unwrap();
    assert_eq!(state.loop_control.rotate_requested_seq, Some(3));
    assert_eq!(state.loop_control.nudge_requested_seq, Some(2));
}

fn block_until(id: &str, until: Option<&str>) -> EventPayload {
    changed(
        Some("deferred"),
        vec![with_state_change(
            id,
            WorkStateChange::Block {
                reason: "deferred".to_owned(),
                until: until.map(|value| Instant::read(value).expect("a test instant parses")),
            },
        )],
    )
}

#[test]
fn a_block_may_carry_a_review_deadline_and_the_latest_block_wins_whole() {
    let mut state = ProjectState::default();
    state
        .apply(&event(
            1,
            changed(None, vec![add("hm-a", &[], &[]), add("hm-b", &[], &[])]),
        ))
        .unwrap();
    assert!(state.next_review_at().is_none());

    state
        .apply(&event(2, block_until("hm-a", Some("2026-08-04T15:00:00Z"))))
        .unwrap();
    state
        .apply(&event(3, block_until("hm-b", Some("2026-08-04T12:00:00Z"))))
        .unwrap();
    assert_eq!(
        state
            .work
            .get("hm-a")
            .unwrap()
            .block_until
            .unwrap()
            .to_rfc3339(),
        "2026-08-04T15:00:00+00:00"
    );
    // The earliest deadline over all blocked work is the loop's next review.
    assert_eq!(
        state.next_review_at().unwrap().to_rfc3339(),
        "2026-08-04T12:00:00+00:00"
    );

    // Blocking again without a deadline clears it: the latest statement wins.
    state.apply(&event(4, block_until("hm-b", None))).unwrap();
    assert!(state.work.get("hm-b").unwrap().block_until.is_none());

    // Unblocking clears the deadline with the reason.
    let unblock = with_state_change(
        "hm-a",
        WorkStateChange::Unblock {
            reason: "reviewed".to_owned(),
        },
    );
    state
        .apply(&event(5, changed(Some("reviewed"), vec![unblock])))
        .unwrap();
    assert!(state.work.get("hm-a").unwrap().block_until.is_none());
    assert!(state.next_review_at().is_none());
}

#[test]
fn pause_resume_and_engine_selection_are_last_writer_wins() {
    let mut state = ProjectState::default();
    assert!(!state.loop_control.paused);
    assert_eq!(state.loop_control.engine, None);

    let pause = |why: &str| {
        EventPayload::Loop(LoopEventPayload::LoopPaused {
            why: Some(why.to_owned()),
        })
    };
    state.apply(&event(1, pause("release freeze"))).unwrap();
    assert!(state.loop_control.paused);
    assert_eq!(
        state.loop_control.pause_reason.as_deref(),
        Some("release freeze")
    );

    state.apply(&event(2, pause(" "))).unwrap();
    assert!(state.loop_control.paused);
    assert_eq!(state.loop_control.pause_reason, None);

    state
        .apply(&event(
            3,
            EventPayload::Loop(LoopEventPayload::LoopResumed {}),
        ))
        .unwrap();
    assert!(!state.loop_control.paused);
    assert_eq!(state.loop_control.pause_reason, None);

    for engine in ["opus", "codex"] {
        state
            .apply(&event(
                4,
                EventPayload::Loop(LoopEventPayload::LoopEngineSelected {
                    engine: engine.to_owned(),
                }),
            ))
            .unwrap();
        assert_eq!(state.loop_control.engine.as_deref(), Some(engine));
    }
    assert_eq!(
        state
            .apply(&event(
                5,
                EventPayload::Loop(LoopEventPayload::LoopEngineSelected {
                    engine: " ".to_owned(),
                }),
            ))
            .unwrap_err()
            .code,
        "validation_failed"
    );
}

#[test]
fn cycle_errors_report_the_actual_cycle() {
    let mut state = ProjectState::default();
    let error = state
        .apply(&event(
            1,
            changed(
                None,
                vec![
                    add("hm-a", &["hm-c"], &[]),
                    add("hm-b", &["hm-a"], &[]),
                    add("hm-c", &["hm-b"], &[]),
                ],
            ),
        ))
        .unwrap_err();
    assert_eq!(
        error.context.get("cycle"),
        Some(&Json::List(vec![
            Json::text("hm-a"),
            Json::text("hm-c"),
            Json::text("hm-b"),
            Json::text("hm-a"),
        ]))
    );
}

// ---- each refusal, with an input that gives it -----------------------------------------

fn refusal(state: &ProjectState, seq: u64, payload: EventPayload) -> (String, String) {
    let mut candidate = state.replica();
    let error = candidate.apply(&event(seq, payload)).unwrap_err();
    // What is refused changes nothing.
    assert_eq!(&candidate, state);
    (error.code, error.message)
}

#[test]
fn every_kind_of_refusal_has_its_code() {
    let state = one_started();
    let cases = vec![
        (changed(None, vec![add("hm-a", &[], &[])]), "validation_failed"),
        (changed(Some("try"), vec![edit("hm-x")]), "not_found"),
        (
            changed(None, vec![add("hm-b", &["hm-x"], &[])]),
            "missing_dependency",
        ),
        (
            changed(None, vec![add("hm-b", &["hm-b"], &[])]),
            "dependency_cycle",
        ),
        (started("hm-a-attempt-2", "hm-a"), "work_not_ready"),
        (started("hm-x-attempt-1", "hm-x"), "not_found"),
        (bound("hm-x-attempt-1", "tmux:x"), "not_found"),
        (finished("hm-a", None, false, None), "validation_failed"),
        (
            finished("hm-a", Some("hm-b-attempt-1"), false, None),
            "attempt_mismatch",
        ),
    ];
    for (payload, code) in cases {
        let (found, message) = refusal(&state, 3, payload);
        assert_eq!(found, code, "{message}");
    }
}

#[test]
fn bigger_priorities_come_first_and_older_work_before_younger() {
    let mut urgent = add("hm-z", &[], &[]);
    if let WorkOperation::Add { work } = &mut urgent {
        work.priority = 7;
    }
    let state = ProjectState::fold(&[
        event(1, changed(None, vec![add("hm-b", &[], &[])])),
        event(2, changed(None, vec![add("hm-a", &[], &[]), urgent])),
    ])
    .unwrap();
    assert_eq!(
        state
            .ready()
            .iter()
            .map(|work| work.id.as_str())
            .collect::<Vec<_>>(),
        ["hm-z", "hm-b", "hm-a"]
    );
}

#[test]
fn a_fold_of_a_beginning_is_the_state_before_the_rest() {
    let events = vec![
        event(1, changed(None, vec![add("hm-a", &[], &["test"])])),
        event(2, started("hm-a-attempt-1", "hm-a")),
        event(3, bound("hm-a-attempt-1", "tmux:one")),
    ];
    let mut state = ProjectState::default();
    for count in 0..events.len() {
        assert_eq!(ProjectState::fold(&events[..count]).unwrap(), state);
        state.apply(&events[count]).unwrap();
    }
    assert_eq!(ProjectState::fold(&events).unwrap(), state);
}

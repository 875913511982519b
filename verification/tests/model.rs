//! Events: what they are called, what they name, and which are history.

use alder::attempt::{AttemptDefinition, AttemptOutcome};
use alder::catalog::Catalog;
use alder::event::{
    EventDraft, EventPayload, LegacyHandoffDefinition, LoopEventPayload, WorkEventPayload,
};
use alder::instant::Instant;
use alder::json::Json;
use alder::question::QuestionDefinition;
use alder::store::Head;
use alder::work::{WorkDefinition, WorkOperation};

fn work(id: &str, requires: Vec<String>) -> WorkDefinition {
    WorkDefinition {
        id: id.to_owned(),
        title: "work".to_owned(),
        spec: None,
        priority: 0,
        requires,
        checks: Vec::new(),
    }
}

fn handoff() -> LegacyHandoffDefinition {
    LegacyHandoffDefinition {
        id: "handoff".to_owned(),
        title: "handoff".to_owned(),
        artifact_ref: "ref".to_owned(),
        note: None,
    }
}

#[test]
fn heads_and_drafts_materialize_exact_event_data() {
    assert!(Head::empty().is_empty());
    let at = Instant::now();
    let draft = EventDraft {
        id: "event".to_owned(),
        at,
        actor: "actor".to_owned(),
        payload: EventPayload::Work(WorkEventPayload::WorkReopened {
            work_id: "hm-one".to_owned(),
            why: "reason".to_owned(),
        }),
        schema: "alder.event.v0".to_owned(),
    };
    let event = draft.materialize(7);
    assert_eq!(event.id, "event");
    assert_eq!(event.seq, 7);
    assert_eq!(event.at, at);
    assert_eq!(event.actor, "actor");
    assert_eq!(event.payload.event_type(), "work.reopened");
    assert_eq!(event.schema, "alder.event.v0");
}

#[test]
fn payload_names_and_references_cover_every_variant() {
    let cases: Vec<(EventPayload, &str, Vec<&str>)> = vec![
        (
            EventPayload::Work(WorkEventPayload::LegacyHandoffSubmitted { handoff: handoff() }),
            "handoff.submitted",
            vec!["handoff"],
        ),
        (
            EventPayload::Work(WorkEventPayload::LegacyHandoffIntegrated {
                handoff_id: "handoff".to_owned(),
                work: work("work", Vec::new()),
            }),
            "handoff.integrated",
            vec!["handoff", "work"],
        ),
        (
            EventPayload::Work(WorkEventPayload::LegacyHandoffWithdrawn {
                handoff_id: "handoff".to_owned(),
                why: "reason".to_owned(),
            }),
            "handoff.withdrawn",
            vec!["handoff"],
        ),
        (
            EventPayload::Work(WorkEventPayload::WorkChanged {
                why: Some("reason".to_owned()),
                operations: vec![
                    WorkOperation::Add {
                        work: work("added", vec!["required".to_owned()]),
                    },
                    WorkOperation::Edit {
                        id: "edited".to_owned(),
                        title: None,
                        spec: None,
                        priority: None,
                        add_requires: Vec::new(),
                        remove_requires: Vec::new(),
                        add_checks: Vec::new(),
                        remove_checks: Vec::new(),
                        state_change: None,
                    },
                ],
            }),
            "work.changed",
            vec!["added", "required", "edited"],
        ),
        (
            EventPayload::Work(WorkEventPayload::WorkFinished {
                work_id: "work".to_owned(),
                attempt_id: Some("attempt".to_owned()),
                external: false,
                evidence: None,
            }),
            "work.finished",
            vec!["work", "attempt"],
        ),
        (
            EventPayload::Work(WorkEventPayload::WorkDropped {
                work_id: "work".to_owned(),
                attempt_id: Some("attempt".to_owned()),
                outcome: Some(AttemptOutcome::Failed),
                why: "reason".to_owned(),
            }),
            "work.dropped",
            vec!["work", "attempt"],
        ),
        (
            EventPayload::Work(WorkEventPayload::WorkReopened {
                work_id: "work".to_owned(),
                why: "reason".to_owned(),
            }),
            "work.reopened",
            vec!["work"],
        ),
        (
            EventPayload::Work(WorkEventPayload::AttemptStarted {
                attempt: AttemptDefinition {
                    id: "attempt".to_owned(),
                    work_id: "work".to_owned(),
                    tier: Some("terra".to_owned()),
                    metadata: Catalog::new(),
                },
            }),
            "attempt.started",
            vec!["attempt", "work"],
        ),
        (
            EventPayload::Work(WorkEventPayload::AttemptBound {
                attempt_id: "attempt".to_owned(),
                handle: "tmux:one".to_owned(),
                metadata: Catalog::new(),
            }),
            "attempt.bound",
            vec!["attempt"],
        ),
        (
            EventPayload::Work(WorkEventPayload::AttemptUpdated {
                attempt_id: "attempt".to_owned(),
                tier: None,
                metadata: Catalog::new(),
                note: None,
                checks: Vec::new(),
            }),
            "attempt.updated",
            vec!["attempt"],
        ),
        (
            EventPayload::Work(WorkEventPayload::AttemptEnded {
                attempt_id: "attempt".to_owned(),
                outcome: AttemptOutcome::Failed,
                why: "reason".to_owned(),
            }),
            "attempt.ended",
            vec!["attempt"],
        ),
        (
            EventPayload::Work(WorkEventPayload::QuestionAsked {
                question: QuestionDefinition {
                    id: "question".to_owned(),
                    work_id: "work".to_owned(),
                    text: "question".to_owned(),
                },
            }),
            "question.asked",
            vec!["question", "work"],
        ),
        (
            EventPayload::Work(WorkEventPayload::QuestionAnswered {
                question_id: "question".to_owned(),
                answer: "answer".to_owned(),
            }),
            "question.answered",
            vec!["question"],
        ),
        (
            EventPayload::Loop(LoopEventPayload::LegacyPassStarted(Json::object().with(
                "pass",
                Json::object()
                    .with("id", Json::text("pass"))
                    .with("engine", Json::text("opus")),
            ))),
            "pass.started",
            vec![],
        ),
        (
            EventPayload::Loop(LoopEventPayload::LegacyPassEnded(
                Json::object()
                    .with("pass_id", Json::text("pass"))
                    .with("outcome", Json::text("ok")),
            )),
            "pass.ended",
            vec![],
        ),
        (
            EventPayload::Loop(LoopEventPayload::LoopPaused { why: None }),
            "loop.paused",
            vec![],
        ),
        (
            EventPayload::Loop(LoopEventPayload::LoopResumed {}),
            "loop.resumed",
            vec![],
        ),
        (
            EventPayload::Loop(LoopEventPayload::LoopEngineSelected {
                engine: "codex".to_owned(),
            }),
            "loop.engine_selected",
            vec![],
        ),
        (
            EventPayload::Loop(LoopEventPayload::LoopRotationRequested { why: None }),
            "loop.rotation_requested",
            vec![],
        ),
        (
            EventPayload::Loop(LoopEventPayload::LoopNudgeRequested { why: None }),
            "loop.nudge_requested",
            vec![],
        ),
    ];

    for (payload, name, references) in cases {
        assert_eq!(payload.event_type(), name);
        assert!(!payload.references("unrelated"), "{name}");
        for reference in references {
            assert!(payload.references(reference), "{name}: {reference}");
        }
    }
}

#[test]
fn exactly_the_handoff_and_pass_variants_are_legacy() {
    let legacy = [
        EventPayload::Work(WorkEventPayload::LegacyHandoffSubmitted { handoff: handoff() }),
        EventPayload::Work(WorkEventPayload::LegacyHandoffIntegrated {
            handoff_id: "handoff".to_owned(),
            work: work("work", Vec::new()),
        }),
        EventPayload::Work(WorkEventPayload::LegacyHandoffWithdrawn {
            handoff_id: "handoff".to_owned(),
            why: "reason".to_owned(),
        }),
        EventPayload::Loop(LoopEventPayload::LegacyPassStarted(Json::object())),
        EventPayload::Loop(LoopEventPayload::LegacyPassEnded(Json::object())),
    ];
    for payload in &legacy {
        assert!(payload.is_legacy(), "{}", payload.event_type());
    }
    let live = [
        EventPayload::from(WorkEventPayload::WorkReopened {
            work_id: "work".to_owned(),
            why: "reason".to_owned(),
        }),
        EventPayload::from(LoopEventPayload::LoopPaused { why: None }),
        EventPayload::from(LoopEventPayload::LoopRotationRequested { why: None }),
        EventPayload::from(LoopEventPayload::LoopNudgeRequested { why: None }),
    ];
    for payload in &live {
        assert!(!payload.is_legacy(), "{}", payload.event_type());
    }
}

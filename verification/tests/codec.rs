//! Records: what is written is read back, and what was written long ago still is.

use alder::catalog::Catalog;
use alder::codec::{decode_record, encode_draft, Record};
use alder::event::{Event, EventDraft, EventPayload, LoopEventPayload, WorkEventPayload};
use alder::instant::Instant;
use alder::json::Json;
use alder::project::ProjectState;
use alder::wire::ToJson;
use alder::work::{WorkOperation, WorkState, WorkStateChange};

fn object(members: Vec<(&str, Json)>) -> Json {
    let mut object = Json::object();
    for (key, value) in members {
        object = object.with(key, value);
    }
    object
}

fn list(items: Vec<Json>) -> Json {
    Json::List(items)
}

fn record(id: &str, seq: u64, at: &str, actor: &str, kind: &str, body: Json) -> Record {
    Record {
        id: id.to_owned(),
        seq,
        at: Instant::read(at).unwrap(),
        actor: actor.to_owned(),
        kind: kind.to_owned(),
        body,
        schema: "alder.event.v0".to_owned(),
    }
}

fn draft_of(event: Event) -> EventDraft {
    EventDraft {
        id: event.id,
        at: event.at,
        actor: event.actor,
        payload: event.payload,
        schema: event.schema,
    }
}

#[test]
fn current_work_event_wire_format_round_trips_through_the_opaque_codec() {
    let document = record(
        "event-one",
        1,
        "2026-07-27T12:00:00Z",
        "tester",
        "work.changed",
        object(vec![("why", Json::Null), ("operations", list(vec![]))]),
    );
    let event = decode_record(&document).unwrap();
    let persisted = encode_draft(&draft_of(event)).materialize(1);
    assert_eq!(persisted, document);
    assert_eq!(persisted.at.to_wire().as_deref(), Some("2026-07-27T12:00:00Z"));
}

#[test]
fn legacy_pass_events_decode_byte_identically_and_fold_inert() {
    let documents = [
        record(
            "legacy-wake",
            1,
            "2026-07-27T12:00:00Z",
            "alderd",
            "pass.started",
            object(vec![(
                "pass",
                object(vec![
                    ("id", Json::text("hm-pass-1")),
                    ("engine", Json::text("opus")),
                    ("handle", Json::text("tmux:alder-leader")),
                    ("triggers", list(vec![Json::text("log"), Json::text("due")])),
                    ("at_head", Json::Int(0)),
                ]),
            )]),
        ),
        record(
            "legacy-end",
            2,
            "2026-07-27T12:05:00Z",
            "leader",
            "pass.ended",
            object(vec![
                ("pass_id", Json::text("hm-pass-1")),
                ("outcome", Json::text("ok")),
                ("report", Json::text("swept the frontier")),
                ("wake_at", Json::text("2026-07-27T12:25:00Z")),
                ("rotate", Json::Bool(false)),
                ("why", Json::Null),
            ]),
        ),
    ];

    let mut events = Vec::new();
    for document in &documents {
        let event = decode_record(document).unwrap();
        // The body survives whole: writing the event again gives the same record.
        let again = encode_draft(&draft_of(decode_record(document).unwrap()));
        assert_eq!(again.body, document.body);
        events.push(event);
    }
    let state = ProjectState::fold(&events).unwrap();
    assert!(state.work.is_empty());
    assert!(state.loop_control.rotate_requested_seq.is_none());
}

/// Attempts from before there were tiers: handles, and stamps in the metadata. The
/// handle survives as it was, and the missing tier is none.
#[test]
fn historical_attempt_events_with_engine_and_session_stamps_still_fold() {
    let documents = [
        record(
            "old-work",
            1,
            "2026-07-30T12:00:00Z",
            "leader",
            "work.changed",
            object(vec![
                ("why", Json::Null),
                ("operations", list(vec![added("al-old", "old", vec![])])),
            ]),
        ),
        record(
            "old-start",
            2,
            "2026-07-30T12:00:01Z",
            "alderd",
            "attempt.started",
            object(vec![(
                "attempt",
                object(vec![
                    ("id", Json::text("al-old-attempt-1")),
                    ("work_id", Json::text("al-old")),
                    ("metadata", Json::object()),
                ]),
            )]),
        ),
        record(
            "old-bind",
            3,
            "2026-07-30T12:00:02Z",
            "alderd",
            "attempt.bound",
            object(vec![
                ("attempt_id", Json::text("al-old-attempt-1")),
                ("handle", Json::text("tmux:alder-work-al-old")),
                (
                    "metadata",
                    object(vec![
                        ("engine", Json::text("gpt-5.6-terra")),
                        ("effort", Json::text("high")),
                        ("tier", Json::text("terra")),
                    ]),
                ),
            ]),
        ),
        record(
            "old-stamp",
            4,
            "2026-07-30T12:00:03Z",
            "alderd",
            "attempt.updated",
            object(vec![
                ("attempt_id", Json::text("al-old-attempt-1")),
                (
                    "metadata",
                    object(vec![(
                        "codex-session",
                        Json::text("019fb2ef-d507-7201-bc36-79d6d5b82336"),
                    )]),
                ),
                ("note", Json::Null),
                ("checks", list(vec![])),
            ]),
        ),
    ];

    let events: Vec<Event> = documents
        .iter()
        .map(|document| decode_record(document).unwrap())
        .collect();
    let state = ProjectState::fold(&events).unwrap();

    let attempt = state.attempts.get("al-old-attempt-1").unwrap();
    assert_eq!(attempt.handle.as_deref(), Some("tmux:alder-work-al-old"));
    assert!(attempt.tier.is_none());
    assert_eq!(
        attempt.to_json().get("tier"),
        Some(&Json::Null),
        "tier is an explicit null, not an omitted key"
    );
    assert_eq!(
        attempt.metadata.get("engine"),
        Some(&Json::text("gpt-5.6-terra"))
    );
    assert_eq!(
        attempt.metadata.get("codex-session"),
        Some(&Json::text("019fb2ef-d507-7201-bc36-79d6d5b82336"))
    );
}

fn definition(id: &str, title: &str, requires: Vec<Json>) -> Json {
    object(vec![
        ("id", Json::text(id)),
        ("title", Json::text(title)),
        ("spec", Json::Null),
        ("priority", Json::Int(0)),
        ("requires", list(requires)),
        ("checks", list(vec![])),
    ])
}

fn added(id: &str, title: &str, requires: Vec<Json>) -> Json {
    object(vec![
        ("op", Json::text("add")),
        ("work", definition(id, title, requires)),
    ])
}

#[test]
fn legacy_handoff_integration_decodes_and_replays_created_work() {
    let at = "2026-07-27T12:00:00Z";
    let documents = [
        record(
            "legacy-integrate",
            1,
            at,
            "tester",
            "handoff.integrated",
            object(vec![
                ("handoff_id", Json::text("hm-handoff-old")),
                ("work", definition("hm-old", "old", vec![])),
            ]),
        ),
        record(
            "dependent-work",
            2,
            at,
            "tester",
            "work.changed",
            object(vec![
                ("why", Json::Null),
                (
                    "operations",
                    list(vec![added(
                        "hm-dependent",
                        "dependent",
                        vec![Json::text("hm-old")],
                    )]),
                ),
            ]),
        ),
        record(
            "legacy-attempt-started",
            3,
            at,
            "tester",
            "attempt.started",
            object(vec![(
                "attempt",
                object(vec![
                    ("id", Json::text("hm-old-attempt-1")),
                    ("work_id", Json::text("hm-old")),
                    ("metadata", Json::object()),
                ]),
            )]),
        ),
        record(
            "legacy-attempt-updated",
            4,
            at,
            "tester",
            "attempt.updated",
            object(vec![
                ("attempt_id", Json::text("hm-old-attempt-1")),
                ("metadata", Json::object()),
                ("note", Json::text("working")),
                ("checks", list(vec![])),
            ]),
        ),
        record(
            "legacy-work-finished",
            5,
            at,
            "tester",
            "work.finished",
            object(vec![
                ("work_id", Json::text("hm-old")),
                ("attempt_id", Json::text("hm-old-attempt-1")),
                ("external", Json::Bool(false)),
                ("evidence", Json::Null),
            ]),
        ),
    ];

    let events: Vec<Event> = documents
        .iter()
        .map(|document| decode_record(document).unwrap())
        .collect();
    let state = ProjectState::fold(&events).unwrap();

    assert_eq!(state.work.get("hm-old").unwrap().state, WorkState::Done);
    assert!(state.work.contains_key("hm-dependent"));
    state.validate_graph().unwrap();
}

#[test]
fn what_is_written_is_read_back() {
    let mut metadata = Catalog::new();
    metadata.insert("count".to_owned(), Json::Int(2));
    let payloads = vec![
        EventPayload::Work(WorkEventPayload::AttemptBound {
            attempt_id: "hm-1-attempt-1".to_owned(),
            handle: "tmux:one".to_owned(),
            metadata,
        }),
        EventPayload::Work(WorkEventPayload::WorkReopened {
            work_id: "hm-1".to_owned(),
            why: "regressed \"again\"".to_owned(),
        }),
        EventPayload::Loop(LoopEventPayload::LoopPaused { why: None }),
    ];
    for payload in payloads {
        let draft = EventDraft {
            id: "event".to_owned(),
            at: Instant::read("2026-07-27T12:00:00.250Z").unwrap(),
            actor: "tester".to_owned(),
            payload,
            schema: "alder.event.v0".to_owned(),
        };
        let record = encode_draft(&draft).materialize(9);
        assert_eq!(record.at.to_wire().as_deref(), Some("2026-07-27T12:00:00.250Z"));
        assert_eq!(decode_record(&record).unwrap(), draft.materialize(9));
    }
}

#[test]
fn a_record_of_an_unknown_type_is_an_error() {
    let alien = record(
        "alien-1",
        1,
        "2026-07-27T12:00:00Z",
        "tester",
        "not.an.alder.event",
        Json::object(),
    );
    assert!(decode_record(&alien).is_err());
    let shapeless = record(
        "shapeless-1",
        1,
        "2026-07-27T12:00:00Z",
        "tester",
        "work.reopened",
        Json::object(),
    );
    assert!(decode_record(&shapeless).is_err());
}

#[test]
fn a_deadline_in_a_leap_second_of_a_far_year_is_read_back() {
    for (seconds, nanos) in [
        (1_483_228_799, 1_250_000_000),
        (253_402_300_800, 7),
        (-62_167_219_201, 0),
    ] {
        let until = Instant { seconds, nanos };
        let draft = EventDraft {
            id: "event-one".to_owned(),
            at: Instant { seconds: 0, nanos: 0 },
            actor: "tester".to_owned(),
            payload: EventPayload::Work(WorkEventPayload::WorkChanged {
                why: Some("later".to_owned()),
                operations: vec![WorkOperation::Edit {
                    id: "hm-1".to_owned(),
                    title: None,
                    spec: None,
                    priority: None,
                    add_requires: vec![],
                    remove_requires: vec![],
                    add_checks: vec![],
                    remove_checks: vec![],
                    state_change: Some(WorkStateChange::Block {
                        reason: "later".to_owned(),
                        until: Some(until),
                    }),
                }],
            }),
            schema: "alder.event.v0".to_owned(),
        };
        let written = encode_draft(&draft).materialize(3);
        let read = decode_record(&written).unwrap();
        assert_eq!(read, draft.materialize(3));
        let again = encode_draft(&draft_of(read)).materialize(3);
        assert_eq!(again, written);
    }
}

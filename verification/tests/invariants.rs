//! What holds of whole histories.

use alder::codec::{encode_draft, decode_record, Record};
use alder::event::{Event, EventDraft, EventPayload, LoopEventPayload};
use alder::instant::Instant;
use alder::invariants::{
    log_folds_cleanly, mentions_no_readers, rotation_request_mirrors_the_log,
};
use alder::json::Json;
use alder::project::ProjectState;

const SCHEMA: &str = "alder.event.v0";

fn draft(id: &str, payload: LoopEventPayload) -> EventDraft {
    EventDraft {
        id: id.to_owned(),
        at: Instant {
            seconds: 1_800_000_000,
            nanos: 0,
        },
        actor: "tester".to_owned(),
        payload: EventPayload::from(payload),
        schema: SCHEMA.to_owned(),
    }
}

fn records(drafts: Vec<EventDraft>) -> Vec<Record> {
    drafts
        .iter()
        .enumerate()
        .map(|(index, draft)| encode_draft(draft).materialize(index as u64 + 1))
        .collect()
}

fn events(drafts: Vec<EventDraft>) -> Vec<Event> {
    records(drafts)
        .iter()
        .map(|record| decode_record(record).expect("the drafts decode"))
        .collect()
}

fn folded(drafts: Vec<EventDraft>) -> (Vec<Event>, ProjectState) {
    let events = events(drafts);
    let state = ProjectState::fold(&events).expect("the history folds");
    (events, state)
}

fn rotation(id: &str) -> EventDraft {
    draft(id, LoopEventPayload::LoopRotationRequested { why: None })
}

fn legacy_pass_end(id: &str, rotate: bool) -> EventDraft {
    draft(
        id,
        LoopEventPayload::LegacyPassEnded(
            Json::object()
                .with("pass_id", Json::text("al-pass-1"))
                .with("outcome", Json::text("ok"))
                .with("report", Json::Null)
                .with("wake_at", Json::Null)
                .with("rotate", Json::Bool(rotate))
                .with("why", Json::Null),
        ),
    )
}

#[test]
fn an_ordinary_history_folds_cleanly() {
    let history = records(vec![
        draft("pause-1", LoopEventPayload::LoopPaused { why: None }),
        rotation("rotate-1"),
    ]);
    assert!(log_folds_cleanly(&history));
}

#[test]
fn a_record_no_reader_can_decode_does_not_fold() {
    // A store does not look into its records, so one of an unknown type is one
    // that it can hold.
    let alien = Record {
        id: "alien-1".to_owned(),
        seq: 1,
        at: Instant::read("2026-07-27T12:00:00Z").unwrap(),
        actor: "tester".to_owned(),
        kind: "not.an.alder.event".to_owned(),
        body: Json::object(),
        schema: SCHEMA.to_owned(),
    };
    assert!(!log_folds_cleanly(&vec![alien]));
}

#[test]
fn a_history_free_of_pass_events_mentions_no_readers() {
    let history = events(vec![
        draft("pause-1", LoopEventPayload::LoopPaused { why: None }),
        rotation("rotate-1"),
    ]);
    assert!(mentions_no_readers(&history));
}

#[test]
fn a_history_holding_a_pass_event_mentions_a_reader() {
    let history = events(vec![legacy_pass_end("legacy-1", false)]);
    assert!(!mentions_no_readers(&history));
}

#[test]
fn the_latest_rotation_request_is_the_recorded_one() {
    let (history, state) = folded(vec![rotation("rotate-1"), rotation("rotate-2")]);
    assert_eq!(state.loop_control.rotate_requested_seq, Some(2));
    assert!(rotation_request_mirrors_the_log(&state, &history));
}

#[test]
fn a_history_that_never_asked_has_no_request_recorded() {
    let (history, state) = folded(vec![draft(
        "pause-1",
        LoopEventPayload::LoopPaused { why: None },
    )]);
    assert!(state.loop_control.rotate_requested_seq.is_none());
    assert!(rotation_request_mirrors_the_log(&state, &history));
}

#[test]
fn a_historical_pass_end_that_asked_to_rotate_counts_as_a_request() {
    let (history, state) = folded(vec![legacy_pass_end("legacy-1", true)]);
    assert_eq!(state.loop_control.rotate_requested_seq, Some(1));
    assert!(rotation_request_mirrors_the_log(&state, &history));

    // One that did not ask counts for nothing.
    let (history, state) = folded(vec![legacy_pass_end("legacy-1", false)]);
    assert!(state.loop_control.rotate_requested_seq.is_none());
    assert!(rotation_request_mirrors_the_log(&state, &history));
}

#[test]
fn a_fold_that_forgot_the_request_disagrees_with_the_history() {
    let (history, mut state) = folded(vec![rotation("rotate-1")]);
    // A fold that dropped the request on the floor: the history still holds it, so
    // the two part company.
    state.loop_control.rotate_requested_seq = None;
    assert!(!rotation_request_mirrors_the_log(&state, &history));
}

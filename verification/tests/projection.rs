//! The rows of the projection, and what holds it against the project.

use alder::attempt::{AttemptOutcome, CheckStatus, CheckUpdate};
use alder::catalog::{Catalog, Replica};
use alder::codec::{decode_record, Record};
use alder::event::Event;
use alder::instant::Instant;
use alder::json::Json;
use alder::log::{ProjectLog, Snapshot};
use alder::observation::ObservationKey;
use alder::project::ProjectState;
use alder::projection::{
    event_rows, hex, is_stale, represented_head, state_rows, verify_projection, Cell, Projection,
    Row, Table,
};
use alder::store::{Head, MemoryStore};
use alder::work::CheckDefinition;

fn in_table(rows: &[Row], table: Table) -> Vec<&Row> {
    rows.iter().filter(|row| row.table == table).collect()
}

fn text(cell: &Cell) -> &str {
    match cell {
        Cell::Text(content) => content,
        other => panic!("expected a text, not {other:?}"),
    }
}

fn number(cell: &Cell) -> u64 {
    match cell {
        Cell::Number(n) => *n,
        other => panic!("expected a number, not {other:?}"),
    }
}

#[test]
fn a_respawn_may_reuse_the_handle_of_an_ended_attempt() {
    let mut log = ProjectLog::new(MemoryStore::new(), "hm", "tester");
    let (_, work_id) = log
        .add_work("Build".to_owned(), None, 42, Vec::new(), Vec::new())
        .unwrap();
    let (_, first) = log.start(&work_id, None, Catalog::new()).unwrap();
    log.bind_attempt(&first, "tmux:leader".to_owned(), Catalog::new())
        .unwrap();
    log.end_attempt(&first, AttemptOutcome::Lost, "handle absent".to_owned())
        .unwrap();
    let (_, second) = log.start(&work_id, None, Catalog::new()).unwrap();
    log.bind_attempt(&second, "tmux:leader".to_owned(), Catalog::new())
        .unwrap();
    let snapshot = log.snapshot().unwrap();

    let rows = state_rows(&snapshot.state);
    let total = in_table(&rows, Table::Attempts)
        .iter()
        .filter(|row| {
            row.cells
                .iter()
                .any(|cell| matches!(cell, Cell::Text(handle) if handle == "tmux:leader"))
        })
        .count();
    assert_eq!(total, 2);
}

fn whole_project() -> Snapshot {
    let mut log = ProjectLog::new(MemoryStore::new(), "hm", "tester");
    let (_, work_id) = log
        .add_work(
            "Build".to_owned(),
            Some("Specification".to_owned()),
            42,
            Vec::new(),
            vec![CheckDefinition {
                key: "test".to_owned(),
                description: "tests pass".to_owned(),
            }],
        )
        .unwrap();
    let (_, attempt_id) = log.start(&work_id, None, Catalog::new()).unwrap();
    log.bind_attempt(&attempt_id, "tmux:one".to_owned(), Catalog::new())
        .unwrap();
    log.update_attempt(
        &attempt_id,
        Some("opus".to_owned()),
        Catalog::new(),
        Some("working".to_owned()),
        vec![CheckUpdate {
            key: "test".to_owned(),
            status: CheckStatus::Satisfied,
            evidence: "CI 42".to_owned(),
        }],
    )
    .unwrap();
    let (_, question_id) = log.ask(&work_id, "Ship?".to_owned()).unwrap();
    log.answer(&question_id, "Yes".to_owned()).unwrap();
    log.snapshot().unwrap()
}

#[test]
fn the_rows_hold_the_complete_fold() {
    let snapshot = whole_project();
    let events = event_rows(&snapshot.events);
    assert_eq!(events.len(), 6);
    assert_eq!(text(&events[0].cells[4]), "work.changed");
    assert_eq!(text(&events[5].cells[4]), "question.answered");

    let rows = state_rows(&snapshot.state);
    for (table, count) in [
        (Table::WorkCurrent, 1),
        (Table::Dependencies, 0),
        (Table::WorkChecks, 1),
        (Table::Attempts, 1),
        (Table::AttemptChecks, 1),
        (Table::Questions, 1),
        (Table::QuestionAnswers, 1),
        (Table::LoopControl, 1),
    ] {
        assert_eq!(in_table(&rows, table).len(), count, "{table:?}");
    }
    let work = in_table(&rows, Table::WorkCurrent)[0];
    assert_eq!(text(&work.cells[1]), "Build");
    assert_eq!(text(&work.cells[2]), "Specification");
    assert!(matches!(work.cells[3], Cell::Signed(42)));
    let attempt = in_table(&rows, Table::Attempts)[0];
    for content in ["opus", "tmux:one", "working"] {
        assert!(
            attempt
                .cells
                .iter()
                .any(|cell| matches!(cell, Cell::Text(held) if held == content)),
            "{content}"
        );
    }
    let question = in_table(&rows, Table::Questions)[0];
    assert!(question
        .cells
        .iter()
        .any(|cell| matches!(cell, Cell::Text(held) if held == "Yes")));
}

/// What the rows of the events hold folds again to the same observations, among
/// them a level that is held for an attempt that has ended.
#[test]
fn projected_events_refold_to_the_same_observation_picture() {
    let mut log = ProjectLog::new(MemoryStore::new(), "hm", "tester");
    let (_, work_id) = log
        .add_work("Build".to_owned(), None, 0, Vec::new(), Vec::new())
        .unwrap();
    let (_, attempt_id) = log.start(&work_id, None, Catalog::new()).unwrap();
    log.bind_attempt(&attempt_id, "tmux:one".to_owned(), Catalog::new())
        .unwrap();
    log.report_observation(
        ObservationKey {
            observer: "tmux".to_owned(),
            subject: attempt_id.clone(),
            field: "liveness".to_owned(),
        },
        "present".to_owned(),
    )
    .unwrap();
    log.end_attempt(
        &attempt_id,
        AttemptOutcome::Cancelled,
        "fixture over".to_owned(),
    )
    .unwrap();
    let snapshot = log.snapshot().unwrap();
    assert_eq!(snapshot.state.observations.len(), 1);
    assert_eq!(
        verify_projection(
            &Some(snapshot.head.replica()),
            &snapshot.head,
            1,
            1,
            &snapshot.state
        )
        .unwrap()
        .get("valid"),
        Some(&Json::Bool(true))
    );

    let reloaded: Vec<Event> = event_rows(&snapshot.events)
        .iter()
        .map(|row| {
            let document = match &row.cells[5] {
                Cell::Document(document) => document,
                other => panic!("expected a document, not {other:?}"),
            };
            decode_record(&Record {
                id: text(&row.cells[1]).to_owned(),
                seq: number(&row.cells[0]),
                at: Instant::read(text(&row.cells[2])).unwrap(),
                actor: text(&row.cells[3]).to_owned(),
                kind: text(&row.cells[4]).to_owned(),
                body: document.get("body").unwrap().clone(),
                schema: "alder.event.v0".to_owned(),
            })
            .unwrap()
        })
        .collect();
    let refolded = ProjectState::fold(&reloaded).unwrap();
    assert_eq!(refolded.observations, snapshot.state.observations);
    let key = refolded.observations.key_at(0);
    assert_eq!(key.subject, attempt_id);
    assert_eq!(key.field, "liveness");
}

#[test]
fn verification_detects_each_projection_mismatch() {
    let mut log = ProjectLog::new(MemoryStore::new(), "hm", "tester");
    let (_, work_id) = log
        .add_work("Build".to_owned(), None, 0, Vec::new(), Vec::new())
        .unwrap();
    log.start(&work_id, None, Catalog::new()).unwrap();
    let snapshot = log.snapshot().unwrap();
    let represented = Some(snapshot.head.replica());
    let rows = state_rows(&snapshot.state);
    let work_rows = in_table(&rows, Table::WorkCurrent).len() as u64;
    let attempt_rows = in_table(&rows, Table::Attempts).len() as u64;
    assert!(verify_projection(
        &represented,
        &snapshot.head,
        work_rows,
        attempt_rows,
        &snapshot.state
    )
    .is_ok());

    let wrong_head = Head {
        revision: Some("other".to_owned()),
        seq: snapshot.head.sequence(),
    };
    assert_eq!(
        verify_projection(
            &represented,
            &wrong_head,
            work_rows,
            attempt_rows,
            &snapshot.state
        )
        .unwrap_err()
        .code,
        "projection_mismatch"
    );
    assert_eq!(
        verify_projection(&represented, &snapshot.head, 0, attempt_rows, &snapshot.state)
            .unwrap_err()
            .code,
        "projection_mismatch"
    );
    assert_eq!(
        verify_projection(&represented, &snapshot.head, work_rows, 0, &snapshot.state)
            .unwrap_err()
            .code,
        "projection_mismatch"
    );
    assert_eq!(
        verify_projection(&None, &snapshot.head, work_rows, attempt_rows, &snapshot.state)
            .unwrap_err()
            .code,
        "projection_mismatch"
    );
}

#[test]
fn a_represented_head_has_both_halves_or_neither() {
    let some = |text: &str| Some(text.to_owned());
    assert_eq!(represented_head(&None, &None).unwrap(), None);
    assert_eq!(
        represented_head(&some("one"), &None).unwrap_err().code,
        "database_error"
    );
    assert_eq!(
        represented_head(&None, &some("1")).unwrap_err().code,
        "database_error"
    );
    for invalid in ["", "x", "-1", "1 ", "+", "18446744073709551616"] {
        assert_eq!(
            represented_head(&some("one"), &some(invalid))
                .unwrap_err()
                .message,
            "projection head sequence is invalid",
            "{invalid}"
        );
    }
    assert_eq!(
        represented_head(&some("one"), &some("18446744073709551615")).unwrap(),
        Some(Head {
            revision: some("one"),
            seq: u64::MAX,
        })
    );
    assert_eq!(
        represented_head(&some(""), &some("0")).unwrap(),
        Some(Head::empty())
    );
}

#[test]
fn bytes_are_shown_in_hexadecimal() {
    assert_eq!(hex(&[]), "");
    assert_eq!(hex(&[0x00, 0x0f, 0xff]), "000fff");
    assert_eq!(Projection::new("state.db".to_owned()).path(), "state.db");
}

#[test]
fn a_projection_is_rebuilt_only_when_the_represented_head_changes() {
    let head = Head::empty();
    assert!(is_stale(&None, &head));
    assert!(!is_stale(&Some(Head::empty()), &head));
    let moved = Head {
        revision: Some("one".to_owned()),
        seq: 1,
    };
    assert!(is_stale(&Some(Head::empty()), &moved));
}

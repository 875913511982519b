//! The plain ledger.

use alder::attempt::{AttemptOutcome, CheckStatus};
use alder::catalog::Catalog;
use alder::change::{ChangeMode, EditWorkInput, GraphChangeDocument};
use alder::event::{EventPayload, WorkEventPayload};
use alder::json::Json;
use alder::ledger::Ledger;
use alder::log::work_id_available;
use alder::store::{MemoryStore, Store};
use alder::work::{CheckDefinition, WorkState};

#[test]
fn ledger_attempts_consume_ordinals_and_late_updates_are_rejected() {
    let mut log = Ledger::new(MemoryStore::new(), "hm", "test");
    let (_, work) = log
        .add_work("work".to_owned(), None, 0, vec![], vec![])
        .unwrap();
    let (_, first) = log.start(&work, Catalog::new()).unwrap();
    log.end_attempt(
        &first,
        AttemptOutcome::NotStarted,
        "launch failed".to_owned(),
    )
    .unwrap();
    let (_, second) = log.start(&work, Catalog::new()).unwrap();
    assert!(second.ends_with("-attempt-2"));
    let error = log
        .update_attempt(&first, Catalog::new(), Some("late".to_owned()), vec![])
        .unwrap_err();
    assert_eq!(error.code, "attempt_ended");
}

#[test]
fn ledger_asking_blocks_and_answering_does_not_unblock() {
    let mut log = Ledger::new(MemoryStore::new(), "hm", "test");
    let (_, work) = log
        .add_work("work".to_owned(), None, 0, vec![], vec![])
        .unwrap();
    let (_, question) = log.ask(&work, "which path?".to_owned()).unwrap();
    log.answer(&question, "path A".to_owned()).unwrap();
    let snapshot = log.snapshot().unwrap();
    assert_eq!(
        snapshot.state.work.get(&work).unwrap().state,
        WorkState::Blocked
    );
    assert_eq!(
        snapshot
            .state
            .questions
            .get(&question)
            .unwrap()
            .answer
            .as_deref(),
        Some("path A")
    );
}

#[test]
fn ledger_later_attempt_gets_the_complete_check_contract() {
    let mut log = Ledger::new(MemoryStore::new(), "hm", "test");
    let (_, work) = log
        .add_work(
            "work".to_owned(),
            None,
            0,
            vec![],
            vec![
                CheckDefinition {
                    key: "tests".to_owned(),
                    description: "tests pass".to_owned(),
                },
                CheckDefinition {
                    key: "review".to_owned(),
                    description: "review passes".to_owned(),
                },
            ],
        )
        .unwrap();
    let (_, first) = log.start(&work, Catalog::new()).unwrap();
    log.end_attempt(&first, AttemptOutcome::Failed, "failed".to_owned())
        .unwrap();
    let (_, second) = log.start(&work, Catalog::new()).unwrap();
    let snapshot = log.snapshot().unwrap();
    let checks = &snapshot.state.attempts.get(&second).unwrap().checks;
    assert_eq!(checks.len(), 2);
    assert!((0..checks.len()).all(|index| checks.value_at(index).status == CheckStatus::Pending));
}

#[test]
fn ledger_reopening_a_prerequisite_rejects_active_downstream_work() {
    let mut log = Ledger::new(MemoryStore::new(), "hm", "test");
    let (_, prerequisite) = log
        .add_work("A".to_owned(), None, 0, vec![], vec![])
        .unwrap();
    let (_, first_attempt) = log.start(&prerequisite, Catalog::new()).unwrap();
    log.finish(&prerequisite, Some(first_attempt), false, None)
        .unwrap();
    let (_, downstream) = log
        .add_work("B".to_owned(), None, 0, vec![prerequisite.clone()], vec![])
        .unwrap();
    let (_, downstream_attempt) = log.start(&downstream, Catalog::new()).unwrap();
    let error = log
        .reopen(&prerequisite, "regressed".to_owned())
        .unwrap_err();
    assert_eq!(error.code, "active_downstream");
    assert_eq!(
        error.context.get("active_attempts"),
        Some(&Json::List(vec![Json::text(&downstream_attempt)]))
    );
}

#[test]
fn ledger_dropping_active_work_ends_the_named_attempt_atomically() {
    let mut log = Ledger::new(MemoryStore::new(), "hm", "test");
    let (_, work) = log
        .add_work("work".to_owned(), None, 0, vec![], vec![])
        .unwrap();
    let (_, attempt) = log.start(&work, Catalog::new()).unwrap();
    log.drop_work(
        &work,
        Some(attempt.clone()),
        Some(AttemptOutcome::Cancelled),
        "no longer useful".to_owned(),
    )
    .unwrap();
    let snapshot = log.snapshot().unwrap();
    assert_eq!(
        snapshot.state.work.get(&work).unwrap().state,
        WorkState::Dropped
    );
    assert_eq!(
        snapshot.state.attempts.get(&attempt).unwrap().outcome,
        Some(AttemptOutcome::Cancelled)
    );
    assert_eq!(
        snapshot.events.last().unwrap().payload.event_type(),
        "work.dropped"
    );
}

#[test]
fn ledger_revised_answers_keep_history_and_still_require_explicit_unblock() {
    let mut log = Ledger::new(MemoryStore::new(), "hm", "test");
    let (_, work) = log
        .add_work("work".to_owned(), None, 0, vec![], vec![])
        .unwrap();
    let (_, question) = log.ask(&work, "which?".to_owned()).unwrap();
    log.answer(&question, "A".to_owned()).unwrap();
    log.answer(&question, "B".to_owned()).unwrap();
    let snapshot = log.snapshot().unwrap();
    assert_eq!(
        snapshot
            .state
            .questions
            .get(&question)
            .unwrap()
            .answers
            .len(),
        2
    );
    assert_eq!(
        snapshot.state.work.get(&work).unwrap().state,
        WorkState::Blocked
    );

    let document = GraphChangeDocument {
        why: Some("decision incorporated".to_owned()),
        add: vec![],
        edit: vec![EditWorkInput {
            id: work.clone(),
            title: None,
            spec: None,
            priority: None,
            add_requires: vec![],
            remove_requires: vec![],
            add_checks: vec![],
            remove_checks: vec![],
            block: false,
            unblock: true,
        }],
    };
    let prepared = log
        .allocate_change(&snapshot, &document, ChangeMode::Edit)
        .unwrap();
    log.commit_change(&snapshot, &document, prepared).unwrap();
    assert_eq!(
        log.snapshot().unwrap().state.work.get(&work).unwrap().state,
        WorkState::Open
    );
}

#[test]
fn ledger_external_completion_is_distinct_and_needs_evidence() {
    let mut log = Ledger::new(MemoryStore::new(), "hm", "test");
    let (_, work) = log
        .add_work("work".to_owned(), None, 0, vec![], vec![])
        .unwrap();
    let missing = log.finish(&work, None, true, None).unwrap_err();
    assert_eq!(missing.code, "validation_failed");
    log.finish(&work, None, true, Some("merged outside Alder".to_owned()))
        .unwrap();
    let snapshot = log.snapshot().unwrap();
    match &snapshot.events.last().unwrap().payload {
        EventPayload::Work(WorkEventPayload::WorkFinished { external, .. }) => {
            assert!(*external)
        }
        _ => panic!("expected external work finish"),
    }
}

#[test]
fn ledger_starts_report_every_unmet_dependency_and_questions_are_per_work() {
    let mut log = Ledger::new(MemoryStore::new(), "hm", "test");
    let (_, prerequisite) = log
        .add_work("prerequisite".to_owned(), None, 0, vec![], vec![])
        .unwrap();
    let (_, dependent) = log
        .add_work(
            "dependent".to_owned(),
            None,
            0,
            vec![prerequisite.clone()],
            vec![],
        )
        .unwrap();

    let error = log.start(&dependent, Catalog::new()).unwrap_err();
    assert_eq!(error.code, "work_not_ready");
    assert_eq!(
        error.context.get("unmet_dependencies"),
        Some(&Json::List(vec![Json::text(&prerequisite)]))
    );

    let (_, first) = log.ask(&dependent, "first?".to_owned()).unwrap();
    let (_, second) = log.ask(&dependent, "second?".to_owned()).unwrap();
    let (_, other) = log.ask(&prerequisite, "other?".to_owned()).unwrap();
    assert_eq!(first, format!("{dependent}-question-1"));
    assert_eq!(second, format!("{dependent}-question-2"));
    assert_eq!(other, format!("{prerequisite}-question-1"));
    assert_eq!(
        log.ask("hm-missing", "missing?".to_owned())
            .unwrap_err()
            .code,
        "not_found"
    );
}

#[test]
fn ledger_change_allocation_rejects_both_persisted_and_batch_collisions() {
    let mut log = Ledger::new(MemoryStore::new(), "hm", "test");
    let (_, persisted) = log
        .add_work("persisted".to_owned(), None, 0, vec![], vec![])
        .unwrap();
    let snapshot = log.snapshot().unwrap();
    let allocated = vec!["hm-batch".to_owned()];

    assert!(!work_id_available(&snapshot.state, &allocated, &persisted));
    assert!(!work_id_available(&snapshot.state, &allocated, "hm-batch"));
    assert!(work_id_available(&snapshot.state, &allocated, "hm-unused"));
}

#[test]
fn the_ledger_hands_out_its_store() {
    let mut ledger = Ledger::new(MemoryStore::new(), "hm", "test");
    ledger
        .add_work("work".to_owned(), None, 0, vec![], vec![])
        .unwrap();
    assert_eq!(ledger.store().current_head().unwrap().seq, 1);
}

#[test]
fn the_ledger_makes_no_history_either() {
    let mut log = Ledger::new(MemoryStore::new(), "hm", "test");
    let snapshot = log.snapshot().unwrap();
    let error = log
        .append_payload(
            &snapshot,
            EventPayload::Work(WorkEventPayload::LegacyHandoffWithdrawn {
                handoff_id: "hm-handoff-1".to_owned(),
                why: "reason".to_owned(),
            }),
        )
        .unwrap_err();
    assert_eq!(error.code, "legacy_event");
    assert_eq!(error.context.get("appended"), Some(&Json::Bool(false)));
    assert_eq!(
        error.message,
        "nothing was appended: `handoff.withdrawn` is decode-only history"
    );
    assert_eq!(log.snapshot().unwrap().head.sequence(), 0);
}

//! Reading arguments, and what the status shows.

use alder::attempt::{Attempt, AttemptOutcome, AttemptState, CheckStatus};
use alder::catalog::Catalog;
use alder::cli::{AttemptEditArgs, NonSuccessOutcome, StatusSection, WorkAddArgs, WorkEditArgs};
use alder::commands::format_outcome;
use alder::documents::{loop_lines, loop_section};
use alder::input::{
    ensure_no_direct_work_fields, handle_edit_has_progress_fields, has_actual_edit_fields,
    has_single_edit_fields, parse_check_results, parse_checks, parse_instant, parse_metadata,
    read_text_file, require_reason, FileText,
};
use alder::instant::Instant;
use alder::json::Json;
use alder::project::ProjectState;
use alder::status::{
    expired_block_findings, human_section, in_flight_section, selected_status_sections,
};
use alder::work::{CheckDefinition, Work, WorkState};

fn blank_add_work_args() -> WorkAddArgs {
    WorkAddArgs {
        from: None,
        title: None,
        spec: None,
        priority: 0,
        requires: Vec::new(),
        check: Vec::new(),
    }
}

fn blank_edit_work_args() -> WorkEditArgs {
    WorkEditArgs {
        work: None,
        from: None,
        title: None,
        spec: None,
        clear_spec: false,
        priority: None,
        add_requires: Vec::new(),
        remove_requires: Vec::new(),
        add_check: Vec::new(),
        remove_check: Vec::new(),
        why: None,
    }
}

#[test]
fn bulk_add_rejects_every_direct_work_field() {
    assert!(ensure_no_direct_work_fields(&blank_add_work_args()).is_ok());

    let mut args = blank_add_work_args();
    args.title = Some("title".to_owned());
    assert!(ensure_no_direct_work_fields(&args).is_err());

    let mut args = blank_add_work_args();
    args.spec = Some("spec".to_owned());
    assert!(ensure_no_direct_work_fields(&args).is_err());

    let mut args = blank_add_work_args();
    args.priority = 1;
    assert!(ensure_no_direct_work_fields(&args).is_err());

    let mut args = blank_add_work_args();
    args.requires.push("hm-1".to_owned());
    assert!(ensure_no_direct_work_fields(&args).is_err());

    let mut args = blank_add_work_args();
    args.check.push("test:passes".to_owned());
    assert!(ensure_no_direct_work_fields(&args).is_err());
}

#[test]
fn edit_field_detection_covers_every_field() {
    let blank = blank_edit_work_args();
    assert!(!has_actual_edit_fields(&blank));
    assert!(!has_single_edit_fields(&blank));

    let mut why_only = blank_edit_work_args();
    why_only.why = Some("reason".to_owned());
    assert!(!has_actual_edit_fields(&why_only));
    assert!(has_single_edit_fields(&why_only));

    let mut cases = Vec::new();

    let mut args = blank_edit_work_args();
    args.title = Some("title".to_owned());
    cases.push(args);

    let mut args = blank_edit_work_args();
    args.spec = Some("spec".to_owned());
    cases.push(args);

    let mut args = blank_edit_work_args();
    args.clear_spec = true;
    cases.push(args);

    let mut args = blank_edit_work_args();
    args.priority = Some(1);
    cases.push(args);

    let mut args = blank_edit_work_args();
    args.add_requires.push("hm-1".to_owned());
    cases.push(args);

    let mut args = blank_edit_work_args();
    args.remove_requires.push("hm-1".to_owned());
    cases.push(args);

    let mut args = blank_edit_work_args();
    args.add_check.push("test:passes".to_owned());
    cases.push(args);

    let mut args = blank_edit_work_args();
    args.remove_check.push("test".to_owned());
    cases.push(args);

    for args in cases {
        assert!(has_actual_edit_fields(&args));
        assert!(has_single_edit_fields(&args));
    }
}

#[test]
fn handle_binding_rejects_each_kind_of_progress_update() {
    let mut args = AttemptEditArgs {
        attempt: "hm-1-attempt-1".to_owned(),
        handle: Some("tmux:worker".to_owned()),
        tier: None,
        meta: Vec::new(),
        satisfied: Vec::new(),
        failed: Vec::new(),
        evidence: None,
        evidence_file: None,
        note: None,
        note_file: None,
    };
    assert!(!handle_edit_has_progress_fields(&args));

    for update in [
        |args: &mut AttemptEditArgs| args.satisfied.push("test".to_owned()),
        |args: &mut AttemptEditArgs| args.failed.push("test".to_owned()),
        |args: &mut AttemptEditArgs| args.evidence = Some("proof".to_owned()),
        |args: &mut AttemptEditArgs| args.evidence_file = Some("proof.txt".to_owned()),
        |args: &mut AttemptEditArgs| args.note = Some("working".to_owned()),
        |args: &mut AttemptEditArgs| args.note_file = Some("note.txt".to_owned()),
    ] {
        update(&mut args);
        assert!(handle_edit_has_progress_fields(&args));
        args.satisfied.clear();
        args.failed.clear();
        args.evidence = None;
        args.evidence_file = None;
        args.note = None;
        args.note_file = None;
    }
}

#[test]
fn in_flight_section_contains_only_starting_and_active_attempts() {
    let mut state = ProjectState::default();
    for (id, state_value, started_seq) in [
        ("hm-1-attempt-1", AttemptState::Starting, 2),
        ("hm-1-attempt-2", AttemptState::Active, 3),
        ("hm-1-attempt-3", AttemptState::Ended, 1),
    ] {
        state.attempts.insert(
            id.to_owned(),
            Attempt {
                tier: None,
                id: id.to_owned(),
                work_id: "hm-1".to_owned(),
                state: state_value,
                outcome: None,
                handle: None,
                metadata: Catalog::new(),
                note: None,
                started_seq,
                bound_seq: None,
                updated_seq: started_seq,
                ended_seq: None,
                checks: Catalog::new(),
            },
        );
    }

    let section = in_flight_section(&state);
    let attempts = match section {
        Json::List(attempts) => attempts,
        other => panic!("expected a list, not {other:?}"),
    };
    assert_eq!(
        attempts
            .iter()
            .map(|attempt| attempt.get("id").unwrap())
            .collect::<Vec<_>>(),
        vec![&Json::text("hm-1-attempt-1"), &Json::text("hm-1-attempt-2")]
    );
}

#[test]
fn parsers_preserve_structured_values_and_reject_ambiguous_input() {
    let checks = parse_checks(&["test:the test passes".to_owned()]).unwrap();
    assert_eq!(
        checks,
        vec![CheckDefinition {
            key: "test".to_owned(),
            description: "the test passes".to_owned(),
        }]
    );
    assert!(parse_checks(&["test".to_owned()]).is_err());

    let metadata = parse_metadata(&[
        "count=2".to_owned(),
        "ready=true".to_owned(),
        "label=worker".to_owned(),
    ])
    .unwrap();
    assert_eq!(metadata.get("count"), Some(&Json::Int(2)));
    assert_eq!(metadata.get("ready"), Some(&Json::Bool(true)));
    assert_eq!(metadata.get("label"), Some(&Json::text("worker")));
    assert!(parse_metadata(&["=value".to_owned()]).is_err());
    assert!(parse_metadata(&["missing-separator".to_owned()]).is_err());
    assert!(parse_metadata(&["key=1".to_owned(), "key=2".to_owned()]).is_err());
}

#[test]
fn check_results_name_their_verdict_and_require_evidence() {
    let none: Vec<String> = Vec::new();
    assert!(
        parse_check_results(&none, &none, None, None)
            .unwrap()
            .is_empty()
    );
    assert!(parse_check_results(&none, &none, Some("proof"), None).is_err());
    assert!(parse_check_results(&["test".to_owned()], &none, None, None).is_err());
    assert!(parse_check_results(&["test".to_owned()], &none, Some(" "), None).is_err());
    assert!(parse_check_results(&[" ".to_owned()], &none, Some("proof"), None).is_err());
    assert!(
        parse_check_results(
            &["test".to_owned()],
            &["test".to_owned()],
            Some("proof"),
            None
        )
        .is_err()
    );
    assert!(
        parse_check_results(
            &["test".to_owned(), "test".to_owned()],
            &none,
            Some("proof"),
            None
        )
        .is_err()
    );

    let updates = parse_check_results(
        &["tests".to_owned()],
        &["review".to_owned()],
        Some("CI 42"),
        None,
    )
    .unwrap();
    assert_eq!(updates.len(), 2);
    assert_eq!(updates[0].key, "tests");
    assert_eq!(updates[0].status, CheckStatus::Satisfied);
    assert_eq!(updates[0].evidence, "CI 42");
    assert_eq!(updates[1].key, "review");
    assert_eq!(updates[1].status, CheckStatus::Failed);
}

#[test]
fn review_instants_accept_only_rfc3339_and_reasons_cannot_be_blank() {
    assert_eq!(
        parse_instant("2026-08-04T15:00:00Z").unwrap().to_rfc3339(),
        "2026-08-04T15:00:00+00:00"
    );
    assert_eq!(
        parse_instant(" 2026-08-04T15:00:00+02:00 ")
            .unwrap()
            .to_rfc3339(),
        "2026-08-04T13:00:00+00:00"
    );
    for invalid in ["", "3pm", "20m", "2026-08-04", "2026-08-04 15:00"] {
        assert!(parse_instant(invalid).is_err(), "{invalid}");
    }

    assert!(require_reason("--why", Some(&"reason".to_owned())).is_ok());
    assert!(require_reason("--why", Some(&" ".to_owned())).is_err());
    assert!(require_reason("--why", None).is_err());
}

fn blocked_work(id: &str, until: Option<&str>) -> Work {
    Work {
        id: id.to_owned(),
        title: id.to_owned(),
        spec: None,
        priority: 0,
        state: WorkState::Blocked,
        block_reason: Some("deferred".to_owned()),
        block_until: until.map(|value| Instant::read(value).expect("a test instant parses")),
        outcome: None,
        opened_seq: 1,
        changed_seq: 1,
        requires: Vec::new(),
        checks: Vec::new(),
    }
}

#[test]
fn the_loop_section_reports_desired_state_and_the_next_review() {
    let mut state = ProjectState::default();
    let empty = loop_section(&state);
    assert_eq!(empty.get("paused"), Some(&Json::Bool(false)));
    assert_eq!(empty.get("engine"), Some(&Json::Null));
    assert_eq!(empty.get("rotate_requested_seq"), Some(&Json::Null));
    assert_eq!(empty.get("nudge_requested_seq"), Some(&Json::Null));
    assert_eq!(empty.get("review_at"), Some(&Json::Null));
    assert_eq!(empty.get("review_deadlines"), Some(&Json::List(vec![])));
    assert!(loop_lines(&state).is_empty());

    state.loop_control.paused = true;
    state.loop_control.pause_reason = Some("release freeze".to_owned());
    state.loop_control.engine = Some("codex".to_owned());
    state.loop_control.rotate_requested_seq = Some(3);
    state.loop_control.nudge_requested_seq = Some(5);
    let paused = loop_section(&state);
    assert_eq!(
        paused.get("pause_reason"),
        Some(&Json::text("release freeze"))
    );
    assert_eq!(paused.get("engine"), Some(&Json::text("codex")));
    assert_eq!(paused.get("rotate_requested_seq"), Some(&Json::Int(3)));
    assert_eq!(paused.get("nudge_requested_seq"), Some(&Json::Int(5)));
    assert_eq!(
        loop_lines(&state)[0],
        "paused · release freeze · engine codex"
    );

    // The earliest deadline of all blocked work is the next review of the loop.
    state.work.insert(
        "hm-a".to_owned(),
        blocked_work("hm-a", Some("2026-08-04T15:00:00Z")),
    );
    state.work.insert(
        "hm-b".to_owned(),
        blocked_work("hm-b", Some("2026-08-04T12:00:00Z")),
    );
    let deferred = loop_section(&state);
    assert_eq!(
        deferred.get("review_at"),
        Some(&Json::text("2026-08-04T12:00:00Z"))
    );
    // Every deadline is there, sorted, not just the earliest.
    assert_eq!(
        deferred.get("review_deadlines"),
        Some(&Json::List(vec![
            Json::text("2026-08-04T12:00:00Z"),
            Json::text("2026-08-04T15:00:00Z"),
        ]))
    );
    assert_eq!(
        loop_lines(&state)[1],
        "next review 2026-08-04T12:00:00+00:00"
    );
}

#[test]
fn an_expired_deferral_is_an_attention_finding_and_an_unexpired_one_is_not() {
    let mut state = ProjectState::default();
    state.work.insert(
        "hm-a".to_owned(),
        blocked_work("hm-a", Some("2026-08-04T12:00:00Z")),
    );
    state
        .work
        .insert("hm-b".to_owned(), blocked_work("hm-b", None));

    let before = Instant::read("2026-08-04T11:59:59Z").unwrap();
    assert!(expired_block_findings(&state, before).is_empty());

    let after = Instant::read("2026-08-04T12:00:00Z").unwrap();
    let findings = expired_block_findings(&state, after);
    assert_eq!(findings.len(), 1);
    assert_eq!(findings[0].kind, "block_expired");
    assert!(findings[0].detail.contains("hm-a"));
    assert!(findings[0]
        .suggested_command
        .as_deref()
        .unwrap()
        .starts_with("alder work unblock hm-a"));
    assert_eq!(
        findings[0].detail,
        "`hm-a` was deferred until 2026-08-04T12:00:00+00:00 and that time has passed — review it"
    );

    // Unblocking, which is reviewing, clears the finding; nothing unblocks by
    // itself.
    let mut reviewed = blocked_work("hm-a", None);
    reviewed.state = WorkState::Open;
    state.work.insert("hm-a".to_owned(), reviewed);
    assert!(expired_block_findings(&state, after).is_empty());
}

#[test]
fn human_helpers_render_every_domain_outcome() {
    let mut lines = vec!["head 1".to_owned()];
    human_section(&mut lines, "empty", Vec::new());
    assert_eq!(lines, vec!["head 1"]);
    human_section(
        &mut lines,
        "items",
        vec!["first".to_owned(), "second".to_owned()],
    );
    assert_eq!(lines, vec!["head 1", "", "items", "  first", "  second"]);

    assert_eq!(format_outcome(AttemptOutcome::Succeeded), "succeeded");
    assert_eq!(format_outcome(AttemptOutcome::Failed), "failed");
    assert_eq!(format_outcome(AttemptOutcome::Cancelled), "cancelled");
    assert_eq!(format_outcome(AttemptOutcome::Lost), "lost");
    assert_eq!(format_outcome(AttemptOutcome::NotStarted), "not-started");

    assert_eq!(
        AttemptOutcome::from(NonSuccessOutcome::Failed),
        AttemptOutcome::Failed
    );
    assert_eq!(
        AttemptOutcome::from(NonSuccessOutcome::Cancelled),
        AttemptOutcome::Cancelled
    );
    assert_eq!(
        AttemptOutcome::from(NonSuccessOutcome::Lost),
        AttemptOutcome::Lost
    );
    assert_eq!(
        AttemptOutcome::from(NonSuccessOutcome::NotStarted),
        AttemptOutcome::NotStarted
    );
}
#[test]
fn sections_are_shown_in_their_own_order_and_once() {
    assert!(selected_status_sections(&[]).is_empty());
    assert_eq!(
        selected_status_sections(&[
            StatusSection::Blocked,
            StatusSection::Attention,
            StatusSection::Blocked,
        ]),
        vec![StatusSection::Attention, StatusSection::Blocked]
    );
}

#[test]
fn a_text_is_given_inline_or_by_a_file_and_not_by_both() {
    let read = FileText {
        path: "note.md".to_owned(),
        read: Ok("from the file".to_owned()),
    };
    let unread = FileText {
        path: "gone.md".to_owned(),
        read: Err("no such file".to_owned()),
    };
    assert_eq!(read_text_file(None, None, "--note-file").unwrap(), None);
    assert_eq!(
        read_text_file(Some("inline"), None, "--note-file").unwrap(),
        Some("inline".to_owned())
    );
    assert_eq!(
        read_text_file(None, Some(&read), "--note-file").unwrap(),
        Some("from the file".to_owned())
    );
    let gone = read_text_file(None, Some(&unread), "--note-file").unwrap_err();
    assert_eq!(gone.code, "input_unavailable");
    assert_eq!(gone.message, "cannot read --note-file `gone.md`: no such file");
    assert_eq!(gone.context.get("path"), Some(&Json::text("gone.md")));
    let both = read_text_file(Some("inline"), Some(&read), "--note-file").unwrap_err();
    assert_eq!(both.code, "validation_failed");
}

#[test]
fn metadata_values_are_json_where_they_can_be() {
    let metadata = parse_metadata(&[
        "list=[1, 2]".to_owned(),
        "text=\"quoted\"".to_owned(),
        "none=null".to_owned(),
        "half={\"a\":".to_owned(),
        "equals=a=b".to_owned(),
    ])
    .unwrap();
    assert_eq!(metadata.get("text"), Some(&Json::text("quoted")));
    assert_eq!(metadata.get("none"), Some(&Json::Null));
    assert_eq!(metadata.get("half"), Some(&Json::text("{\"a\":")));
    assert_eq!(metadata.get("equals"), Some(&Json::text("a=b")));
    assert!(matches!(metadata.get("list"), Some(Json::Raw(_))));
}

#[test]
fn metadata_integers_are_integers_as_far_as_they_reach() {
    let metadata = parse_metadata(&[
        "zero=0".to_owned(),
        "least=-9223372036854775808".to_owned(),
        "most=18446744073709551615".to_owned(),
        "half=1.5".to_owned(),
        "padded=007".to_owned(),
    ])
    .unwrap();
    assert_eq!(metadata.get("zero"), Some(&Json::Int(0)));
    assert_eq!(metadata.get("least"), Some(&Json::Int(i128::from(i64::MIN))));
    assert_eq!(metadata.get("most"), Some(&Json::Int(i128::from(u64::MAX))));
    assert_eq!(metadata.get("half"), Some(&Json::Raw("1.5".to_owned())));
    assert_eq!(metadata.get("padded"), Some(&Json::text("007")));
}

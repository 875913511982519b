//! Refreshing, reconciling, and looking into the log and the observers.

use alder::catalog::Replica;
use alder::cli::{DebugLogCommand, DebugObservationsArgs};
use alder::config::ObserverConfig;
use alder::debug::{debug_log, debug_observations, diagnosed, observer_to_run, rebuilt};
use alder::documents::ReconcileFinding;
use alder::error::{context_lines, AlderError, LineValue};
use alder::json::Json;
use alder::log::ProjectLog;
use alder::observation::ObservationKey;
use alder::observer::{after_execution, NextExecution, MAX_EXECUTIONS};
use alder::refresh::{
    reconcile, record_changes, refresh, successful_kinds, LevelTold, ObservationChange,
    ObserverRun, RefreshApplication,
};
use alder::store::{Head, MemoryStore};

fn key(subject: &str) -> ObservationKey {
    ObservationKey {
        observer: "tmux".to_owned(),
        subject: subject.to_owned(),
        field: "liveness".to_owned(),
    }
}

fn change(subject: &str, level: Option<&str>) -> ObservationChange {
    ObservationChange {
        key: key(subject),
        level: level.map(str::to_owned),
    }
}

#[test]
fn only_changes_that_are_news_are_counted() {
    let mut log = ProjectLog::new(MemoryStore::new(), "hm", "observer");
    let changes = vec![
        change("a", Some("present")),
        change("a", Some("present")),
        change("b", None),
        change("a", Some("absent")),
        change("a", None),
    ];
    assert_eq!(record_changes(&mut log, &changes).unwrap(), (3, 1));
    assert_eq!(log.snapshot().unwrap().head.sequence(), 3);
    assert_eq!(record_changes(&mut log, &vec![]).unwrap(), (0, 0));
}

fn run(kind: &str, success: bool, levels: &[(&str, &str)]) -> ObserverRun {
    ObserverRun {
        kind: kind.to_owned(),
        success,
        normalized: levels
            .iter()
            .map(|(field, level)| LevelTold {
                subject: "worker".to_owned(),
                field: (*field).to_owned(),
                level: (*level).to_owned(),
            })
            .collect(),
        document: Json::object().with("kind", Json::text(kind)),
    }
}

#[test]
fn a_refresh_tallies_the_levels_about_being_alive() {
    let runs = vec![
        run(
            "tmux",
            true,
            &[("liveness", "present"), ("liveness", "absent"), ("ci", "present")],
        ),
        run("github", false, &[("liveness", "stalled")]),
    ];
    assert_eq!(successful_kinds(&runs), vec!["tmux"]);
    let told = refresh(&RefreshApplication {
        runs,
        appended: 3,
        retired: 1,
        head: Head::empty(),
    });
    assert_eq!(told.human, "recorded 3 observation changes (1 retired)");
    let result = told.json.get("result").unwrap();
    for (name, count) in [("present", 1), ("absent", 1), ("unknown", 1), ("retired", 1)] {
        assert_eq!(result.get(name), Some(&Json::Int(count)), "{name}");
    }
    let quiet = refresh(&RefreshApplication {
        runs: vec![],
        appended: 0,
        retired: 0,
        head: Head::empty(),
    });
    assert_eq!(quiet.human, "no observation changes");
    assert_eq!(quiet.json.get("changed"), Some(&Json::Bool(false)));
}

#[test]
fn findings_come_with_what_is_suggested() {
    let finding = ReconcileFinding {
        kind: "missing".to_owned(),
        attempt_id: Some("hm-1-attempt-1".to_owned()),
        handle: None,
        status: "absent".to_owned(),
        detail: "the worker is gone".to_owned(),
        suggested_command: Some("alder attempt end".to_owned()),
        metadata: Json::object(),
    };
    let none = reconcile(&Head::empty(), None, &vec![]);
    assert_eq!(
        none.human,
        "folded observation snapshot\n\nno reconciliation findings"
    );
    assert_eq!(none.json.get("refreshed"), Some(&Json::Bool(false)));
    let application = RefreshApplication {
        runs: vec![],
        appended: 0,
        retired: 0,
        head: Head::empty(),
    };
    let found = reconcile(
        &Head::empty(),
        Some(&application),
        &vec![finding.replica(), finding],
    );
    let once = "hm-1-attempt-1  the worker is gone\n  suggested: alder attempt end";
    assert_eq!(found.human, format!("{once}\n\n{once}"));
}

#[test]
fn the_log_can_be_looked_into() {
    let mut log = ProjectLog::new(MemoryStore::new(), "hm", "test");
    log.pause_loop(None).unwrap();
    log.resume_loop().unwrap();
    let snapshot = log.snapshot().unwrap();
    let ids: Vec<&str> = snapshot.events.iter().map(|e| e.id.as_str()).collect();

    let tail = debug_log(&snapshot, &DebugLogCommand::Tail).unwrap();
    assert_eq!(
        tail.human,
        format!(
            "head 2  memory-2\n#1  loop.paused  {}\n#2  loop.resumed  {}",
            ids[0], ids[1]
        )
    );
    let verified = debug_log(&snapshot, &DebugLogCommand::Verify).unwrap();
    assert_eq!(verified.human, "log valid · 2 events · head 2");
    let head = debug_log(&snapshot, &DebugLogCommand::Head).unwrap();
    assert_eq!(head.human, "head 2  memory-2");
    assert!(debug_log(&snapshot, &DebugLogCommand::Show { seq: 2 }).is_ok());
    assert_eq!(
        debug_log(&snapshot, &DebugLogCommand::Show { seq: 3 })
            .unwrap_err()
            .code,
        "not_found"
    );
    assert_eq!(rebuilt(&snapshot, "state.db").human, "rebuilt state.db at head 2");
}

#[test]
fn observers_are_found_by_name() {
    let observers = vec![ObserverConfig {
        observer: "tmux".to_owned(),
        list: Some("printf '[]'".to_owned()),
        probe: None,
    }];
    let asked = |kind: Option<&str>| DebugObservationsArgs {
        kind: kind.map(str::to_owned),
        run: true,
    };
    assert_eq!(
        observer_to_run(&observers, &asked(None)).unwrap_err().message,
        "--run requires an observation kind"
    );
    assert_eq!(
        observer_to_run(&observers, &asked(Some("github")))
            .unwrap_err()
            .code,
        "observer_unconfigured"
    );
    let args = asked(Some("tmux"));
    let observer = observer_to_run(&observers, &args).unwrap();
    let told = diagnosed("tmux", observer, Json::Null);
    assert_eq!(told.json.get("mode"), Some(&Json::text("list")));
    assert_eq!(told.json.get("command"), Some(&Json::text("printf '[]'")));

    let mut log = ProjectLog::new(MemoryStore::new(), "hm", "test");
    log.report_observation(key("worker"), "present".to_owned())
        .unwrap();
    let state = log.snapshot().unwrap().state;
    assert!(debug_observations(&observers, &state, &asked(Some("tmux"))).is_ok());
    assert_eq!(
        debug_observations(&observers, &state, &asked(Some("nobody")))
            .unwrap_err()
            .code,
        "not_found"
    );
}

#[test]
fn an_error_is_one_document_and_one_line_a_fact() {
    let error = AlderError::with_context(
        "head_conflict",
        "lost".to_owned(),
        Json::object()
            .with("second", Json::Int(2))
            .with("first", Json::text("one line"))
            .with("third", Json::text("two\nlines")),
    );
    assert_eq!(error.json().get("ok"), Some(&Json::Bool(false)));
    assert_eq!(
        error.json().get("schema"),
        Some(&Json::text("alder.error.v0"))
    );
    let lines = context_lines(&error.context);
    let keys: Vec<&str> = lines
        .iter()
        .map(|line| line.key.as_deref().unwrap())
        .collect();
    assert_eq!(keys, vec!["first", "second", "third"]);
    assert_eq!(lines[0].value, LineValue::Bare("one line".to_owned()));
    assert_eq!(lines[1].value, LineValue::Encoded(Json::Int(2)));
    assert_eq!(
        lines[2].value,
        LineValue::Encoded(Json::text("two\nlines"))
    );
    assert!(context_lines(&Json::Null).is_empty());
    assert_eq!(context_lines(&Json::Bool(true)).len(), 1);
}

#[test]
fn an_unreadable_observer_is_asked_four_times() {
    assert_eq!(after_execution(1, true), NextExecution::Done);
    let mut executions: u64 = 1;
    while after_execution(executions, false) == NextExecution::Again {
        executions += 1;
    }
    assert_eq!(executions, 4);
    assert_eq!(MAX_EXECUTIONS, 4);
}

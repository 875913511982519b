//! The manifest.

use alder::catalog::Replica;
use alder::config::{
    accept_existing, init_answer, manifest_missing, open_project, requested_config,
    validate_config, validate_name, verify_store, Config, InitResult, ObserverConfig, StoreConfig,
};
use alder::json::Json;
use alder::log::ProjectLog;
use alder::store::{Head, MemoryStore, Store};

fn valid_config() -> Config {
    Config {
        schema: "alder.config.v0".to_owned(),
        prefix: "hm".to_owned(),
        store: StoreConfig {
            remote: "origin".to_owned(),
            reference: "refs/heads/alder".to_owned(),
        },
        observers: vec![ObserverConfig {
            observer: "tmux".to_owned(),
            list: Some("printf '[]'".to_owned()),
            probe: None,
        }],
    }
}

#[test]
fn config_validation_checks_each_identity_and_observer_field() {
    assert!(validate_config(&valid_config()).is_ok());

    let mut config = valid_config();
    config.schema = "alder.config.v1".to_owned();
    assert!(validate_config(&config).is_err());

    let mut config = valid_config();
    config.prefix = "Not Valid".to_owned();
    assert!(validate_config(&config).is_err());

    let mut config = valid_config();
    config.store.remote = " ".to_owned();
    assert!(validate_config(&config).is_err());

    let mut config = valid_config();
    config.store.reference = String::new();
    assert!(validate_config(&config).is_err());

    let mut config = valid_config();
    config.observers[0].observer = "Not Valid".to_owned();
    assert!(validate_config(&config).is_err());

    let mut config = valid_config();
    config.observers[0].list = Some(" ".to_owned());
    assert!(validate_config(&config).is_err());

    let mut config = valid_config();
    let again = config.observers[0].replica();
    config.observers.push(again);
    assert!(validate_config(&config).is_err());
}

/// An observer runs exactly one command form: `list` for complete generic
/// snapshots or `probe` for per-handle liveness answers — never both, and
/// never neither.
#[test]
fn an_observer_has_exactly_one_command_form() {
    let mut config = valid_config();
    config.observers[0].list = None;
    config.observers[0].probe = Some("scripts/observe-runner.sh \"$1\"".to_owned());
    assert!(validate_config(&config).is_ok());
    assert_eq!(config.observers[0].mode(), "probe");
    assert_eq!(
        config.observers[0].command(),
        "scripts/observe-runner.sh \"$1\""
    );

    let mut config = valid_config();
    config.observers[0].probe = Some("scripts/observe-runner.sh \"$1\"".to_owned());
    assert!(validate_config(&config).is_err());

    let mut config = valid_config();
    config.observers[0].list = None;
    assert!(validate_config(&config).is_err());

    let mut config = valid_config();
    config.observers[0].list = None;
    config.observers[0].probe = Some(" ".to_owned());
    assert!(validate_config(&config).is_err());
}

#[test]
fn name_validation_accepts_only_the_manifest_name_grammar() {
    for valid in ["a", "hm", "tmux-2", "a1-b2"] {
        assert!(validate_name("field", valid).is_ok(), "{valid}");
    }
    for invalid in ["", "-hm", "hm-", "Upper", "has space", "a_b"] {
        assert!(validate_name("field", invalid).is_err(), "{invalid}");
    }
}

#[test]
fn a_manifest_that_cannot_be_read_or_is_not_valid_opens_no_project() {
    let opened = |read| open_project("/work".to_owned(), "/work/alder.toml".to_owned(), read);
    let project = opened(Ok(valid_config())).unwrap();
    assert_eq!(project.root, "/work");
    assert_eq!(project.config_path, "/work/alder.toml");
    assert_eq!(project.config, valid_config());

    let unreadable = opened(Err("expected a table".to_owned())).unwrap_err();
    assert_eq!(unreadable.code, "config_invalid");
    assert_eq!(
        unreadable.message,
        "invalid manifest `/work/alder.toml`: expected a table"
    );
    assert_eq!(
        unreadable.context.get("path"),
        Some(&Json::text("/work/alder.toml"))
    );

    let mut invalid = valid_config();
    invalid.prefix = "Not Valid".to_owned();
    assert_eq!(opened(Ok(invalid)).unwrap_err().code, "config_invalid");
    assert_ne!(manifest_missing("/work").message, "");
}

#[test]
fn a_new_manifest_is_valid_and_keeps_what_was_asked_for() {
    let config = requested_config("hm", "origin", "refs/heads/alder").unwrap();
    assert!(validate_config(&config).is_ok());
    assert_eq!(config.prefix, "hm");
    assert_eq!(config.store.remote, "origin");
    assert_eq!(config.store.reference, "refs/heads/alder");
    assert!(config.observers.is_empty());
    for (prefix, remote, reference) in [
        ("Not Valid", "origin", "refs/heads/alder"),
        ("hm", " ", "refs/heads/alder"),
        ("hm", "origin", ""),
    ] {
        assert!(requested_config(prefix, remote, reference).is_err());
    }
}

#[test]
fn an_existing_manifest_has_to_have_the_same_identity() {
    let requested = requested_config("hm", "origin", "refs/heads/alder").unwrap();
    let accepted = accept_existing("/work/alder.toml", Ok(valid_config()), &requested).unwrap();
    assert_eq!(accepted, valid_config());

    let other = requested_config("zz", "origin", "refs/heads/alder").unwrap();
    let refused = accept_existing("/work/alder.toml", Ok(valid_config()), &other).unwrap_err();
    assert_eq!(refused.code, "config_conflict");
    assert_eq!(
        refused.message,
        "the requested identity or store conflicts with the existing manifest"
    );
    assert_eq!(
        refused.context.get("requested").unwrap().get("prefix"),
        Some(&Json::text("zz"))
    );
    let unreadable =
        accept_existing("/work/alder.toml", Err("not a table".to_owned()), &requested).unwrap_err();
    assert_eq!(
        unreadable.message,
        "the existing manifest is invalid: not a table"
    );
}

#[test]
fn a_store_is_taken_where_its_log_folds_under_the_prefix() {
    let mut log = ProjectLog::new(MemoryStore::new(), "hm", "test");
    log.add_work("work".to_owned(), None, 0, vec![], vec![])
        .unwrap();
    let head = log.store().current_head().unwrap();
    let events = log.store().read_events(&head).unwrap();
    assert_eq!(verify_store(&head, &events, "hm").unwrap(), 1);
    assert_eq!(verify_store(&Head::empty(), &vec![], "hm").unwrap(), 0);
    let error = verify_store(&head, &events, "zz").unwrap_err();
    assert_eq!(error.code, "config_conflict");
    assert!(error
        .message
        .starts_with("configured prefix `zz` does not match work `hm-"));

    let twice = vec![events[0].replica(), events[0].replica()];
    let error = verify_store(&head, &twice, "hm").unwrap_err();
    assert_eq!(error.code, "config_conflict");
    assert!(error
        .message
        .starts_with("the selected ref is not a compatible Alder log: "));
}

#[test]
fn initializing_says_where_the_log_is() {
    let project = open_project(
        "/work".to_owned(),
        "/work/alder.toml".to_owned(),
        Ok(valid_config()),
    )
    .unwrap();
    assert!(project.state_db().starts_with("/work/"));
    assert!(project.store_cache().starts_with("/work/"));
    assert!(project.append_marker().starts_with("/work/"));
    let answer = init_answer(&InitResult {
        project,
        already_initialized: false,
        head_seq: 7,
    });
    assert_eq!(
        answer.human,
        "initialized /work/alder.toml · origin refs/heads/alder"
    );
    assert_eq!(answer.json.get("head"), Some(&Json::Int(7)));
    assert_eq!(
        answer.json.get("status"),
        Some(&Json::text("initialized"))
    );
}

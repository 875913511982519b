//! What the shared log in a Git ref decides.

use alder::catalog::Replica;
use alder::event::{Event, EventDraft, EventPayload, WorkEventPayload};
use alder::git::{
    bounded, check_head, commit_message, event_path, event_paths, listed_paths, plan_append,
    printed_word, pushed, revision_in, settle_append, text_lines, validate_events, AppendStep, GitStore,
};
use alder::instant::Instant;
use alder::json::Json;
use alder::store::Head;

fn draft(id: &str) -> EventDraft {
    EventDraft {
        id: id.to_owned(),
        at: Instant {
            seconds: 1_800_000_000,
            nanos: 0,
        },
        actor: "tester".to_owned(),
        payload: EventPayload::Work(WorkEventPayload::WorkReopened {
            work_id: "hm-1".to_owned(),
            why: "reason".to_owned(),
        }),
        schema: "alder.event.v0".to_owned(),
    }
}

fn event(id: &str, seq: u64) -> Event {
    draft(id).materialize(seq)
}

fn head(revision: &str, seq: u64) -> Head {
    Head {
        revision: Some(revision.to_owned()),
        seq,
    }
}

fn store() -> GitStore {
    GitStore::new(
        "/cache".to_owned(),
        "origin".to_owned(),
        "refs/heads/alder".to_owned(),
    )
}

#[test]
fn what_a_process_printed_is_cut_short() {
    assert_eq!(bounded(b"fatal: no"), "fatal: no");
    assert_eq!(bounded(&[0x66, 0xff, 0x67]), "f\u{fffd}g");
    assert_eq!(bounded(&vec![0x61; 4096]), "a".repeat(4096));
    assert_eq!(
        bounded(&vec![0x61; 4097]),
        format!("{}…", "a".repeat(4096))
    );
}

#[test]
fn a_listing_gives_the_revision_of_the_ref() {
    assert_eq!(
        revision_in("abc123\trefs/heads/alder\n"),
        Some("abc123".to_owned())
    );
    assert_eq!(revision_in(""), None);
    assert_eq!(
        text_lines("one\r\ntwo\n\nfour"),
        vec!["one", "two", "", "four"]
    );
    let found = store()
        .remote_revision(true, Some(0), b"abc123\trefs/heads/alder\n", b"")
        .unwrap();
    assert_eq!(found, Some("abc123".to_owned()));
    let error = store()
        .remote_revision(false, Some(128), b"", b"fatal: unreachable")
        .unwrap_err();
    assert_eq!(error.code, "store_unavailable");
    assert_eq!(error.message, "Git could not read the shared log head");
    assert_eq!(error.context.get("status"), Some(&Json::Int(128)));
    assert_eq!(
        error.context.get("stderr"),
        Some(&Json::text("fatal: unreachable"))
    );
    assert_eq!(store().root(), "/cache");
    assert_eq!(store().spawn_error("no git").code, "store_unavailable");
    assert_eq!(
        store().git_error("push", None, b"").context.get("status"),
        Some(&Json::Null)
    );
}

#[test]
fn events_are_kept_where_they_sort_as_they_stand() {
    assert_eq!(
        event_path(&event("01ABC", 42)),
        "events/00000000000000000042-01ABC.json"
    );
    assert_eq!(
        event_path(&event("x", u64::MAX)),
        "events/18446744073709551615-x.json"
    );
    assert_eq!(
        commit_message(&event("01ABC", 42)),
        "alder: work.reopened #42 01ABC\n"
    );
    assert_eq!(
        event_paths("events/2-b.json\nREADME.md\nevents/1-a.json\nevents/x.txt\n"),
        vec!["events/1-a.json", "events/2-b.json"]
    );
}

#[test]
fn a_log_is_numbered_from_one_and_names_each_event_once() {
    assert!(validate_events(&vec![]).is_ok());
    assert!(validate_events(&vec![event("a", 1), event("b", 2)]).is_ok());
    assert!(validate_events(&vec![event("a", 1), event("b", 3)]).is_err());
    assert!(validate_events(&vec![event("a", 0)]).is_err());
    assert!(validate_events(&vec![event("a", 1), event("a", 2)]).is_err());
}

#[test]
fn a_head_has_to_match_its_revision() {
    assert_eq!(check_head(&Head::empty(), vec![]).unwrap(), vec![]);
    let read = vec![event("a", 1)];
    assert_eq!(check_head(&head("r", 1), read).unwrap().len(), 1);
    assert_eq!(
        check_head(&head("r", 2), vec![event("a", 1)])
            .unwrap_err()
            .code,
        "invalid_head"
    );
    let impossible = Head {
        revision: None,
        seq: 1,
    };
    assert_eq!(
        check_head(&impossible, vec![]).unwrap_err().code,
        "invalid_head"
    );
}

#[test]
fn an_append_is_settled_refused_or_pushed() {
    let events = vec![event("a", 1)];
    let current = head("r1", 1);
    match plan_append(&current, &draft("b"), current.replica(), &events).unwrap() {
        AppendStep::Push(next) => {
            assert_eq!(next, event("b", 2));
            let result = pushed("r2".to_owned(), next);
            assert_eq!(result.head, head("r2", 2));
        }
        other => panic!("expected a push, not {other:?}"),
    }
    match plan_append(&Head::empty(), &draft("a"), current.replica(), &events).unwrap() {
        AppendStep::Settled(result) => {
            assert_eq!(result.event, event("a", 1));
            assert_eq!(result.head, current);
        }
        other => panic!("expected a settled append, not {other:?}"),
    }
    assert_eq!(
        plan_append(&Head::empty(), &draft("b"), current.replica(), &events)
            .unwrap_err()
            .code,
        "head_conflict"
    );
}

#[test]
fn a_push_that_failed_is_settled_by_what_is_there() {
    let expected = head("r1", 1);
    let before = vec![event("a", 1)];
    let settled = settle_append(
        &expected,
        &draft("b"),
        head("r2", 2),
        &vec![event("a", 1), event("b", 2)],
        b"timeout",
    )
    .unwrap();
    assert_eq!(settled.event, event("b", 2));
    let lost = settle_append(
        &expected,
        &draft("b"),
        head("r2", 2),
        &vec![event("a", 1), event("c", 2)],
        b"rejected",
    )
    .unwrap_err();
    assert_eq!(lost.code, "head_conflict");
    assert_eq!(lost.message, "another writer advanced the shared log");
    assert_eq!(lost.context.get("event_id"), Some(&Json::text("b")));
    let unknown =
        settle_append(&expected, &draft("b"), head("r1", 1), &before, b"timeout").unwrap_err();
    assert_eq!(unknown.code, "unknown_append_outcome");
    assert_eq!(unknown.context.get("stderr"), Some(&Json::text("timeout")));
}

#[test]
fn a_draft_that_was_pushed_is_there_and_is_not_pushed_again() {
    let current = head("r1", 1);
    let mut events = vec![event("a", 1)];
    let next = match plan_append(&current, &draft("b"), current.replica(), &events).unwrap() {
        AppendStep::Push(next) => next,
        other => panic!("expected a push, not {other:?}"),
    };
    let told = pushed("r2".to_owned(), next.replica()).head;
    events.push(next);
    match plan_append(&current, &draft("b"), told.replica(), &events).unwrap() {
        AppendStep::Settled(result) => assert_eq!(result.event, event("b", 2)),
        other => panic!("expected a settled append, not {other:?}"),
    }
    assert_eq!(check_head(&told, events).unwrap().len(), 2);
}

#[test]
fn what_git_prints_is_read_whatever_its_bytes() {
    assert_eq!(
        listed_paths(b"events/2-b.json\nevents/1-\xff.json\nREADME.md\n"),
        vec!["events/1-\u{fffd}.json".to_owned(), "events/2-b.json".to_owned()]
    );
    assert_eq!(printed_word(b" abc123\n"), "abc123");
    assert_eq!(printed_word(b"\n"), "");
}

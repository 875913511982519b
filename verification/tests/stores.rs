//! Logs in memory: one writer wins, and nothing is appended twice.

use alder::event::{Event, EventDraft, EventPayload, WorkEventPayload};
use alder::instant::Instant;
use alder::store::{Head, MemoryStore, Store};

fn draft(id: &str) -> EventDraft {
    EventDraft {
        id: id.to_owned(),
        at: Instant::now(),
        actor: "test".to_owned(),
        payload: EventPayload::Work(WorkEventPayload::WorkChanged {
            why: None,
            operations: vec![],
        }),
        schema: "alder.event.v0".to_owned(),
    }
}

#[test]
fn compare_and_swap_allows_only_one_writer() {
    let mut store = MemoryStore::new();
    let head = store.current_head().unwrap();
    store.append(&head, &draft("one")).unwrap();
    let error = store.append(&head, &draft("two")).unwrap_err();
    assert_eq!(error.code, "head_conflict");
    assert_eq!(store.current_head().unwrap().seq, 1);
}

#[test]
fn event_id_is_idempotent() {
    let mut store = MemoryStore::new();
    let head = store.current_head().unwrap();
    let first = store.append(&head, &draft("same")).unwrap();
    let second = store.append(&head, &draft("same")).unwrap();
    assert_eq!(first.event.seq, second.event.seq);
    assert_eq!(store.current_head().unwrap().seq, 1);
}

#[test]
fn heads_and_prefix_reads_preserve_exact_boundaries() {
    let mut store = MemoryStore::new();
    assert_eq!(store.current_head().unwrap(), Head::empty());

    let empty = store.current_head().unwrap();
    let first = store.append(&empty, &draft("one")).unwrap();
    let second = store.append(&first.head, &draft("two")).unwrap();

    assert_eq!(
        first.head,
        Head {
            revision: Some("memory-1".to_owned()),
            seq: 1,
        }
    );
    assert_eq!(
        second.head,
        Head {
            revision: Some("memory-2".to_owned()),
            seq: 2,
        }
    );
    assert!(store.read_events(&Head::empty()).unwrap().is_empty());
    assert_eq!(store.read_events(&first.head).unwrap().len(), 1);
    assert_eq!(store.read_events(&second.head).unwrap().len(), 2);

    let error = store
        .read_events(&Head {
            revision: Some("memory-3".to_owned()),
            seq: 3,
        })
        .unwrap_err();
    assert_eq!(error.code, "invalid_head");
}

#[test]
fn a_read_gives_back_what_was_appended() {
    let mut store = MemoryStore::new();
    let mut head = store.current_head().unwrap();
    let mut appended: Vec<Event> = Vec::new();
    for id in ["one", "two", "three"] {
        let result = store.append(&head, &draft(id)).unwrap();
        head = result.head;
        appended.push(result.event);
    }
    assert_eq!(store.read_events(&head).unwrap(), appended);
    assert_eq!(
        appended.iter().map(|event| event.seq).collect::<Vec<_>>(),
        [1, 2, 3]
    );
}

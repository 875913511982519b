//! The observation picture as one document.

use alder::event::{Event, EventPayload};
use alder::instant::Instant;
use alder::json::Json;
use alder::observation::{ObservationDefinition, ObservationEventPayload, ObservationKey};
use alder::picture::{read_picture, write_picture, PictureError};
use alder::project::ProjectState;

fn reported(seq: u64, subject: &str, level: &str) -> Event {
    Event {
        id: format!("event-{seq}"),
        seq,
        at: Instant::now(),
        actor: "test".to_owned(),
        payload: EventPayload::Observation(ObservationEventPayload::ObservationReported {
            observation: ObservationDefinition {
                key: ObservationKey {
                    observer: "github".to_owned(),
                    subject: subject.to_owned(),
                    field: "ci".to_owned(),
                },
                level: level.to_owned(),
            },
        }),
        schema: "alder.event.v0".to_owned(),
    }
}

#[test]
fn observation_picture_serializes_as_an_ordered_list_not_a_synthetic_key() {
    let mut state = ProjectState::default();
    state
        .apply(&reported(1, "owner/repo#171", "passing"))
        .unwrap();

    let value = write_picture(&state.observations);
    let first = match &value {
        Json::List(items) => &items[0],
        other => panic!("expected a list, not {other:?}"),
    };
    assert_eq!(first.get("level"), Some(&Json::text("passing")));
    let round_trip = read_picture(&value).unwrap();
    assert_eq!(round_trip, state.observations);
}

#[test]
fn a_picture_of_several_levels_reads_back_and_one_with_a_repeated_key_does_not() {
    let state = ProjectState::fold(&[
        reported(1, "owner/repo#2", "failing"),
        reported(2, "owner/repo#1", "passing"),
    ])
    .unwrap();
    let value = write_picture(&state.observations);
    assert_eq!(read_picture(&value).unwrap(), state.observations);
    let items = match value {
        Json::List(items) => items,
        other => panic!("expected a list, not {other:?}"),
    };
    assert_eq!(items[0].get("subject"), Some(&Json::text("owner/repo#1")));
    let twice = Json::List(vec![items[0].clone(), items[0].clone()]);
    assert_eq!(read_picture(&twice).unwrap_err(), PictureError::DuplicateKey);
    assert_eq!(
        read_picture(&Json::object()).unwrap_err(),
        PictureError::Malformed
    );
}

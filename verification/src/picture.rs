//! The observation picture as a document: a list, ordered by key, in which no key
//! stands twice.

use vstd::prelude::*;

use crate::catalog;
use crate::catalog::{Catalog, Key};
use crate::documents;
use crate::json;
use crate::json::{Json, JsonView};
use crate::observation::{Observation, ObservationKey, ObservationKeyView, ObservationView};
use crate::selection;
use crate::selection::values_of;
use crate::views;
use crate::wire;
use crate::wire::list_to_json;

verus! {

/// The current levels, listed in the order of their keys.
pub open spec fn picture_json(observations: Map<ObservationKeyView, ObservationView>) -> JsonView {
    wire::list_json::<Observation>(
        selection::values::<ObservationKey, ObservationView>(observations),
    )
}

pub fn write_picture(observations: &Catalog<ObservationKey, Observation>) -> (document: Json)
    ensures
        document@ == picture_json(observations@),
{
    list_to_json(&values_of(observations))
}

pub open spec fn text_member(object: JsonView, key: Seq<char>) -> Option<Seq<char>> {
    match object.member(key) {
        Some(JsonView::Text(content)) => Some(content),
        _ => None,
    }
}

fn read_text(object: &Json, key: &str) -> (content: Option<String>)
    ensures
        views::opt_view(content) == text_member(object@, key@),
{
    match object.get(key) {
        Some(Json::Text(content)) => Some(content.clone()),
        _ => None,
    }
}

pub open spec fn seq_member(object: JsonView, key: Seq<char>) -> Option<u64> {
    match object.member(key) {
        Some(JsonView::Int(n)) => if 0 <= n <= u64::MAX {
            Some(n as u64)
        } else {
            None
        },
        _ => None,
    }
}

fn read_seq(object: &Json, key: &str) -> (seq: Option<u64>)
    ensures
        seq == seq_member(object@, key@),
{
    match object.get(key) {
        Some(Json::Int(n)) => if 0 <= *n && *n <= u64::MAX as i128 {
            Some(*n as u64)
        } else {
            None
        },
        _ => None,
    }
}

/// The observation that a document says.
pub open spec fn observation_reading(object: JsonView) -> Option<ObservationView> {
    match (
        text_member(object, "observer"@),
        text_member(object, "subject"@),
        text_member(object, "field"@),
        text_member(object, "level"@),
        seq_member(object, "reported_seq"@),
    ) {
        (Some(observer), Some(subject), Some(field), Some(level), Some(reported_seq)) => Some(
            ObservationView {
                key: ObservationKeyView { observer, subject, field },
                level,
                reported_seq,
            },
        ),
        _ => None,
    }
}

fn read_observation(object: &Json) -> (observation: Option<Observation>)
    ensures
        views::opt_view(observation) == observation_reading(object@),
{
    match (
        read_text(object, "observer"),
        read_text(object, "subject"),
        read_text(object, "field"),
        read_text(object, "level"),
        read_seq(object, "reported_seq"),
    ) {
        (Some(observer), Some(subject), Some(field), Some(level), Some(reported_seq)) => Some(
            Observation {
                key: ObservationKey { observer, subject, field },
                level,
                reported_seq,
            },
        ),
        _ => None,
    }
}

/// Why a document is no picture.
#[derive(Debug, Clone, Copy, PartialEq, Eq, Structural)]
pub enum PictureError {
    /// It is no list of observations.
    Malformed,
    /// Two observations have one key.
    DuplicateKey,
}

pub type Picture = core::result::Result<
    Map<ObservationKeyView, ObservationView>,
    PictureError,
>;

/// The picture that a list of documents makes, or what is wrong with the first that
/// makes none.
pub open spec fn listed(items: Seq<JsonView>) -> Picture
    decreases items.len(),
{
    if items.len() == 0 {
        Ok(Map::empty())
    } else {
        match listed(items.drop_last()) {
            Err(error) => Err(error),
            Ok(front) => match observation_reading(items.last()) {
                None => Err(PictureError::Malformed),
                Some(observation) => if front.contains_key(observation.key) {
                    Err(PictureError::DuplicateKey)
                } else {
                    Ok(front.insert(observation.key, observation))
                },
            },
        }
    }
}

proof fn listed_extends(items: Seq<JsonView>, n: int)
    requires
        0 <= n <= items.len(),
        listed(items.take(n)) is Err,
    ensures
        listed(items) == listed(items.take(n)),
    decreases items.len() - n,
{
    if n == items.len() {
        assert(items.take(n) =~= items);
    } else {
        assert(items.take(n + 1).drop_last() =~= items.take(n));
        listed_extends(items, n + 1);
    }
}

pub open spec fn picture_reading(document: JsonView) -> Picture {
    match document {
        JsonView::List(items) => listed(items),
        _ => Err(PictureError::Malformed),
    }
}

pub fn read_picture(document: &Json) -> (outcome: core::result::Result<
    Catalog<ObservationKey, Observation>,
    PictureError,
>)
    ensures
        match outcome {
            Ok(observations) => picture_reading(document@) == Ok::<
                Map<ObservationKeyView, ObservationView>,
                PictureError,
            >(observations@),
            Err(error) => picture_reading(document@) == Err::<
                Map<ObservationKeyView, ObservationView>,
                PictureError,
            >(error),
        },
{
    let items = match document {
        Json::List(items) => items,
        _ => {
            return Err(PictureError::Malformed);
        },
    };
    let ghost all = document@->List_0;
    let mut found: Catalog<ObservationKey, Observation> = Catalog::new();
    let mut index: usize = 0;
    assert(all.take(0) =~= Seq::<JsonView>::empty());
    while index < items.len()
        invariant
            index <= items@.len(),
            *document == Json::List(*items),
            all == document@->List_0,
            all.len() == items@.len(),
            listed(all.take(index as int)) == Ok::<
                Map<ObservationKeyView, ObservationView>,
                PictureError,
            >(found@),
        decreases items@.len() - index,
    {
        proof {
            assert(all.take(index + 1).drop_last() =~= all.take(index as int));
            assert(all.take(index + 1).last() == items@[index as int]@);
            if listed(all.take(index + 1)) is Err {
                listed_extends(all, index + 1);
            }
        }
        let observation = match read_observation(&items[index]) {
            None => {
                return Err(PictureError::Malformed);
            },
            Some(observation) => observation,
        };
        if found.contains_key(observation.key.as_ask()) {
            return Err(PictureError::DuplicateKey);
        }
        let key = ObservationKey {
            observer: observation.key.observer.clone(),
            subject: observation.key.subject.clone(),
            field: observation.key.field.clone(),
        };
        found.insert(key, observation);
        index += 1;
    }
    assert(all.take(index as int) =~= all);
    Ok(found)
}

proof fn observations_read_back(observation: ObservationView)
    ensures
        observation_reading(documents::observation_json(observation)) == Some(observation),
{
    reveal_strlit("field");
    assert("field"@.len() == 5);
    reveal_strlit("level");
    assert("level"@.len() == 5);
    assert("field"@[0] != "level"@[0]);
    reveal_strlit("observer");
    assert("observer"@.len() == 8);
    reveal_strlit("reported_seq");
    assert("reported_seq"@.len() == 12);
    reveal_strlit("subject");
    assert("subject"@.len() == 7);
    member_written(observation, "field"@);
    member_written(observation, "level"@);
    member_written(observation, "observer"@);
    member_written(observation, "reported_seq"@);
    member_written(observation, "subject"@);
}

proof fn member_written(observation: ObservationView, key: Seq<char>)
    ensures
        documents::observation_json(observation).member(key) == (if key == "field"@ {
            Some(JsonView::Text(observation.key.field))
        } else if key == "level"@ {
            Some(JsonView::Text(observation.level))
        } else if key == "observer"@ {
            Some(JsonView::Text(observation.key.observer))
        } else if key == "reported_seq"@ {
            Some(JsonView::Int(observation.reported_seq as int))
        } else if key == "subject"@ {
            Some(JsonView::Text(observation.key.subject))
        } else {
            None
        }),
{
    let none = json::empty_object();
    assert(none.member(key) is None);
    let one = none.with("field"@, JsonView::Text(observation.key.field));
    let two = one.with("level"@, JsonView::Text(observation.level));
    let three = two.with("observer"@, JsonView::Text(observation.key.observer));
    let four = three.with("reported_seq"@, JsonView::Int(observation.reported_seq as int));
    json::member_of_extended(none, "field"@, JsonView::Text(observation.key.field), key);
    json::member_of_extended(one, "level"@, JsonView::Text(observation.level), key);
    json::member_of_extended(two, "observer"@, JsonView::Text(observation.key.observer), key);
    json::member_of_extended(
        three,
        "reported_seq"@,
        JsonView::Int(observation.reported_seq as int),
        key,
    );
    json::member_of_extended(four, "subject"@, JsonView::Text(observation.key.subject), key);
}

/// A picture in which every observation stands under its own key is read back as it
/// was written.
pub proof fn pictures_read_back(observations: Map<ObservationKeyView, ObservationView>)
    requires
        observations.dom().finite(),
        forall|key: ObservationKeyView| #[trigger]
            observations.contains_key(key) ==> observations[key].key == key,
    ensures
        picture_reading(picture_json(observations)) == Ok::<
            Map<ObservationKeyView, ObservationView>,
            PictureError,
        >(observations),
{
    let keys = catalog::listing::<ObservationKey>(observations.dom());
    catalog::listing_exists::<ObservationKey>(observations.dom());
    let items = picture_json(observations)->List_0;
    assert(items.len() == keys.len());
    assert forall|i: int| 0 <= i < keys.len() implies observations.contains_key(
        #[trigger] keys[i],
    ) by {
        assert(keys.to_set().contains(keys[i]));
    }
    prefixes_read_back(observations, keys, items, keys.len() as int);
    assert(items.take(keys.len() as int) =~= items);
    let held = Map::new(
        |k: ObservationKeyView| keys.take(keys.len() as int).contains(k),
        |k: ObservationKeyView| observations[k],
    );
    assert(keys.take(keys.len() as int) =~= keys);
    assert forall|k: ObservationKeyView| keys.contains(k) <==> observations.contains_key(k) by {
        assert(keys.to_set().contains(k) <==> observations.dom().contains(k));
    }
    assert(held =~= observations);
}

proof fn prefixes_read_back(
    observations: Map<ObservationKeyView, ObservationView>,
    keys: Seq<ObservationKeyView>,
    items: Seq<JsonView>,
    n: int,
)
    requires
        0 <= n <= keys.len(),
        items.len() == keys.len(),
        catalog::ascending::<ObservationKey>(keys),
        forall|i: int|
            0 <= i < keys.len() ==> observations.contains_key(#[trigger] keys[i])
                && observations[keys[i]].key == keys[i],
        forall|i: int|
            0 <= i < items.len() ==> #[trigger] items[i] == documents::observation_json(
                observations[keys[i]],
            ),
    ensures
        listed(items.take(n)) == Ok::<Map<ObservationKeyView, ObservationView>, PictureError>(
            Map::new(
                |k: ObservationKeyView| keys.take(n).contains(k),
                |k: ObservationKeyView| observations[k],
            ),
        ),
    decreases n,
{
    let held = Map::new(
        |k: ObservationKeyView| keys.take(n).contains(k),
        |k: ObservationKeyView| observations[k],
    );
    if n == 0 {
        assert(held =~= Map::<ObservationKeyView, ObservationView>::empty());
    } else {
        prefixes_read_back(observations, keys, items, n - 1);
        let key = keys[n - 1];
        let shorter = keys.take(n - 1);
        let longer = keys.take(n);
        let front = Map::new(
            |k: ObservationKeyView| shorter.contains(k),
            |k: ObservationKeyView| observations[k],
        );
        assert(items.take(n).drop_last() =~= items.take(n - 1));
        assert(items.take(n).last() == items[n - 1]);
        assert(observations.contains_key(key));
        observations_read_back(observations[key]);
        assert(!front.contains_key(key)) by {
            if shorter.contains(key) {
                let i = choose|i: int| 0 <= i < shorter.len() && shorter[i] == key;
                assert(<ObservationKey as Key>::before(keys[i], keys[n - 1]));
                <ObservationKey as Key>::irreflexive(key);
            }
        }
        assert forall|k: ObservationKeyView| held.contains_key(k) <==> front.insert(
            key,
            observations[key],
        ).contains_key(k) by {
            if longer.contains(k) {
                let i = choose|i: int| 0 <= i < longer.len() && longer[i] == k;
                if i < n - 1 {
                    assert(shorter[i] == k);
                }
            }
            if shorter.contains(k) {
                let i = choose|i: int| 0 <= i < shorter.len() && shorter[i] == k;
                assert(longer[i] == k);
            }
            assert(longer[n - 1] == key);
        }
        assert(held =~= front.insert(key, observations[key]));
    }
}

} // verus!

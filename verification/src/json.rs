//! JSON documents as the library builds and reads them.

use vstd::prelude::*;

use crate::catalog::Replica;
use crate::text::same_text;
use crate::views;

verus! {

/// A JSON document. Members of an object stand in the order they were added;
/// `Raw` is a value carried as the JSON text of it.
#[derive(Debug, PartialEq, Eq)]
pub enum Json {
    Null,
    Bool(bool),
    Int(i128),
    Text(String),
    Raw(String),
    List(Vec<Json>),
    Object(Vec<(String, Json)>),
}

#[verifier::ext_equal]
pub enum JsonView {
    Null,
    Bool(bool),
    Int(int),
    Text(Seq<char>),
    Raw(Seq<char>),
    List(Seq<JsonView>),
    Object(Seq<(Seq<char>, JsonView)>),
}

impl Json {
    pub open spec fn model(self) -> JsonView
        decreases self,
    {
        match self {
            Json::Null => JsonView::Null,
            Json::Bool(b) => JsonView::Bool(b),
            Json::Int(n) => JsonView::Int(n as int),
            Json::Text(t) => JsonView::Text(t@),
            Json::Raw(t) => JsonView::Raw(t@),
            Json::List(items) => JsonView::List(
                Seq::new(
                    items@.len(),
                    |i: int|
                        if 0 <= i < items@.len() {
                            items@[i].model()
                        } else {
                            JsonView::Null
                        },
                ),
            ),
            Json::Object(members) => JsonView::Object(
                Seq::new(
                    members@.len(),
                    |i: int|
                        if 0 <= i < members@.len() {
                            (members@[i].0@, members@[i].1.model())
                        } else {
                            (Seq::empty(), JsonView::Null)
                        },
                ),
            ),
        }
    }
}

impl View for Json {
    type V = JsonView;

    open spec fn view(&self) -> JsonView {
        self.model()
    }
}

impl JsonView {
    /// The object with one more member behind the ones it has.
    pub open spec fn with(self, key: Seq<char>, value: JsonView) -> JsonView {
        match self {
            JsonView::Object(members) => JsonView::Object(members.push((key, value))),
            other => other,
        }
    }

    /// The value of the first member under `key`, if this is an object with one.
    pub open spec fn member(self, key: Seq<char>) -> Option<JsonView> {
        match self {
            JsonView::Object(members) => first_member(members, key),
            _ => None,
        }
    }
}

pub open spec fn first_member(members: Seq<(Seq<char>, JsonView)>, key: Seq<char>) -> Option<
    JsonView,
>
    decreases members.len(),
{
    if members.len() == 0 {
        None
    } else if members[0].0 == key {
        Some(members[0].1)
    } else {
        first_member(members.drop_first(), key)
    }
}

proof fn first_member_pushed(
    members: Seq<(Seq<char>, JsonView)>,
    key: Seq<char>,
    value: JsonView,
    asked: Seq<char>,
)
    ensures
        first_member(members.push((key, value)), asked) == (match first_member(members, asked) {
            Some(found) => Some(found),
            None => if key == asked {
                Some(value)
            } else {
                None
            },
        }),
    decreases members.len(),
{
    let longer = members.push((key, value));
    if members.len() == 0 {
        assert(longer.drop_first() =~= Seq::<(Seq<char>, JsonView)>::empty());
        assert(first_member(longer.drop_first(), asked) is None);
    } else {
        assert(longer.drop_first() =~= members.drop_first().push((key, value)));
        first_member_pushed(members.drop_first(), key, value, asked);
    }
}

/// What an object has under a key after one more member was added: what it had,
/// else that member.
pub proof fn member_of_extended(object: JsonView, key: Seq<char>, value: JsonView, asked: Seq<char>)
    requires
        object is Object,
    ensures
        object.with(key, value) is Object,
        object.with(key, value).member(asked) == (match object.member(asked) {
            Some(found) => Some(found),
            None => if key == asked {
                Some(value)
            } else {
                None
            },
        }),
{
    first_member_pushed(object->Object_0, key, value, asked);
}

/// The object without members.
pub open spec fn empty_object() -> JsonView {
    JsonView::Object(Seq::empty())
}

pub open spec fn text_or_null(value: Option<Seq<char>>) -> JsonView {
    match value {
        Some(text) => JsonView::Text(text),
        None => JsonView::Null,
    }
}

pub open spec fn int_or_null(value: Option<u64>) -> JsonView {
    match value {
        Some(n) => JsonView::Int(n as int),
        None => JsonView::Null,
    }
}

pub open spec fn text_list(values: Seq<Seq<char>>) -> JsonView {
    JsonView::List(values.map_values(|t: Seq<char>| JsonView::Text(t)))
}

impl Json {
    pub fn object() -> (object: Json)
        ensures
            object@ == empty_object(),
    {
        let object = Json::Object(Vec::new());
        assert(object@->Object_0 =~= Seq::<(Seq<char>, JsonView)>::empty());
        object
    }

    /// Adds a member to an object; another value stays as it is.
    pub fn with(self, key: &str, value: Json) -> (object: Json)
        ensures
            object@ == self@.with(key@, value@),
    {
        match self {
            Json::Object(members) => {
                let ghost before = Json::Object(members)@;
                let mut members = members;
                let ghost old_members = members@;
                members.push((key.to_owned(), value));
                let object = Json::Object(members);
                proof {
                    let old_view = before->Object_0;
                    let new_view = object@->Object_0;
                    assert(new_view =~= old_view.push((key@, value@)));
                }
                object
            },
            other => other,
        }
    }

    pub fn text(value: &str) -> (json: Json)
        ensures
            json@ == JsonView::Text(value@),
    {
        Json::Text(value.to_owned())
    }

    pub fn optional_text(value: &Option<String>) -> (json: Json)
        ensures
            json@ == text_or_null(views::opt_view(*value)),
    {
        match value {
            Some(text) => Json::text(text.as_str()),
            None => Json::Null,
        }
    }

    pub fn number(value: u64) -> (json: Json)
        ensures
            json@ == JsonView::Int(value as int),
    {
        Json::Int(value as i128)
    }

    pub fn optional_number(value: Option<u64>) -> (json: Json)
        ensures
            json@ == int_or_null(value),
    {
        match value {
            Some(n) => Json::number(n),
            None => Json::Null,
        }
    }

    /// The list of the given texts.
    pub fn texts(values: &Vec<String>) -> (json: Json)
        ensures
            json@ == text_list(views::views(values@)),
    {
        let mut items: Vec<Json> = Vec::new();
        let mut index: usize = 0;
        while index < values.len()
            invariant
                index <= values@.len(),
                items@.len() == index,
                forall|i: int| 0 <= i < index ==> #[trigger] items@[i]@ == JsonView::Text(values@[i]@),
            decreases values@.len() - index,
        {
            items.push(Json::text(values[index].as_str()));
            index += 1;
        }
        let json = Json::List(items);
        proof {
            let expected = views::views(values@).map_values(
                |t: Seq<char>| JsonView::Text(t),
            );
            assert forall|i: int| 0 <= i < items@.len() implies json@->List_0[i] == expected[i] by {
                assert(items@[i]@ == JsonView::Text(values@[i]@));
            }
            assert(json@->List_0 =~= expected);
        }
        json
    }
}

impl Json {
    /// The value of the first member under `key`, if this is an object with one.
    pub fn get(&self, key: &str) -> (value: Option<&Json>)
        ensures
            value is Some <==> self@.member(key@) is Some,
            value matches Some(v) ==> Some(v@) == self@.member(key@),
    {
        match self {
            Json::Object(members) => {
                let ghost all = self@->Object_0;
                assert(all.skip(0) =~= all);
                let mut index: usize = 0;
                while index < members.len()
                    invariant
                        index <= members@.len(),
                        all == self@->Object_0,
                        *self == Json::Object(*members),
                        all.len() == members@.len(),
                        first_member(all, key@) == first_member(all.skip(index as int), key@),
                    decreases members@.len() - index,
                {
                    let ghost rest = all.skip(index as int);
                    assert(rest[0] == (members@[index as int].0@, members@[index as int].1@));
                    if same_text(members[index].0.as_str(), key) {
                        return Some(&members[index].1);
                    }
                    assert(rest.drop_first() =~= all.skip(index + 1));
                    index += 1;
                }
                None
            },
            _ => None,
        }
    }
}

impl Clone for Json {
    fn clone(&self) -> (copy: Json)
        ensures
            copy@ == self@,
        decreases self,
    {
        match self {
            Json::Null => Json::Null,
            Json::Bool(b) => Json::Bool(*b),
            Json::Int(n) => Json::Int(*n),
            Json::Text(t) => Json::Text(t.clone()),
            Json::Raw(t) => Json::Raw(t.clone()),
            Json::List(items) => {
                let mut copies: Vec<Json> = Vec::new();
                let mut index: usize = 0;
                while index < items.len()
                    invariant
                        index <= items@.len(),
                        copies@.len() == index,
                        *self == Json::List(*items),
                        forall|i: int| 0 <= i < index ==> #[trigger] copies@[i]@ == items@[i]@,
                    decreases items@.len() - index,
                {
                    assert(decreases_to!(self => self->List_0));
                    assert(decreases_to!(items => items@));
                    assert(decreases_to!(items@ => items@[index as int]));
                    copies.push(items[index].clone());
                    index += 1;
                }
                let copy = Json::List(copies);
                proof {
                    assert forall|i: int| 0 <= i < items@.len() implies copy@->List_0[i]
                        == self@->List_0[i] by {
                        assert(copies@[i]@ == items@[i]@);
                    }
                    assert(copy@->List_0 =~= self@->List_0);
                }
                copy
            },
            Json::Object(members) => {
                let mut copies: Vec<(String, Json)> = Vec::new();
                let mut index: usize = 0;
                while index < members.len()
                    invariant
                        index <= members@.len(),
                        copies@.len() == index,
                        *self == Json::Object(*members),
                        forall|i: int|
                            #![trigger copies@[i]]
                            0 <= i < index ==> copies@[i].0@ == members@[i].0@ && copies@[i].1@
                                == members@[i].1@,
                    decreases members@.len() - index,
                {
                    assert(decreases_to!(self => self->Object_0));
                    assert(decreases_to!(members => members@));
                    assert(decreases_to!(members@ => members@[index as int]));
                    assert(decreases_to!(members@[index as int] => members@[index as int].1));
                    copies.push((members[index].0.clone(), members[index].1.clone()));
                    index += 1;
                }
                let copy = Json::Object(copies);
                proof {
                    assert forall|i: int| 0 <= i < members@.len() implies copy@->Object_0[i]
                        == self@->Object_0[i] by {
                        assert(copies@[i].0@ == members@[i].0@);
                    }
                    assert(copy@->Object_0 =~= self@->Object_0);
                }
                copy
            },
        }
    }
}

impl Replica for Json {
    fn replica(&self) -> (copy: Json) {
        self.clone()
    }
}

} // verus!

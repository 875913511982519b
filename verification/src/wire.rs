//! Values as JSON: how they are written, and how they are read back.

use vstd::prelude::*;

use crate::catalog;
use crate::catalog::Catalog;
use crate::instant;
use crate::instant::Instant;
use crate::json::{first_member, Json, JsonView};
use crate::text;
use crate::views;

verus! {

/// Values that are written as JSON.
pub trait ToJson: View {
    spec fn json(value: Self::V) -> JsonView;

    /// A value whose moments are all on the calendar.
    spec fn on_calendar(value: Self::V) -> bool;

    /// A value whose moments have been seen to be read back as they were written.
    spec fn wired(value: Self::V) -> bool;

    fn to_json(&self) -> (written: Json)
        ensures
            written@ == Self::json(self@),
            Self::on_calendar(self@) ==> Self::wired(self@),
    ;
}

/// Values that are read from JSON.
pub trait FromJson: ToJson + Sized {
    spec fn reading(json: JsonView) -> Option<Self::V>;

    fn from_json(json: &Json) -> (value: Option<Self>)
        ensures
            views::opt_view(value) == Self::reading(json@),
    ;

    /// What was written is read back.
    proof fn reads_back(value: Self::V)
        requires
            Self::wired(value),
        ensures
            Self::reading(Self::json(value)) == Some(value),
    ;
}

impl ToJson for String {
    open spec fn json(value: Seq<char>) -> JsonView {
        JsonView::Text(value)
    }

    open spec fn on_calendar(value: Seq<char>) -> bool {
        true
    }

    open spec fn wired(value: Seq<char>) -> bool {
        true
    }

    fn to_json(&self) -> (written: Json) {
        Json::Text(self.clone())
    }
}

impl FromJson for String {
    open spec fn reading(json: JsonView) -> Option<Seq<char>> {
        match json {
            JsonView::Text(value) => Some(value),
            _ => None,
        }
    }

    fn from_json(json: &Json) -> (value: Option<String>) {
        match json {
            Json::Text(value) => Some(value.clone()),
            _ => None,
        }
    }

    proof fn reads_back(value: Seq<char>) {
    }
}

impl ToJson for bool {
    open spec fn json(value: bool) -> JsonView {
        JsonView::Bool(value)
    }

    open spec fn on_calendar(value: bool) -> bool {
        true
    }

    open spec fn wired(value: bool) -> bool {
        true
    }

    fn to_json(&self) -> (written: Json) {
        Json::Bool(*self)
    }
}

impl FromJson for bool {
    open spec fn reading(json: JsonView) -> Option<bool> {
        match json {
            JsonView::Bool(value) => Some(value),
            _ => None,
        }
    }

    fn from_json(json: &Json) -> (value: Option<bool>) {
        match json {
            Json::Bool(value) => Some(*value),
            _ => None,
        }
    }

    proof fn reads_back(value: bool) {
    }
}

impl ToJson for i64 {
    open spec fn json(value: i64) -> JsonView {
        JsonView::Int(value as int)
    }

    open spec fn on_calendar(value: i64) -> bool {
        true
    }

    open spec fn wired(value: i64) -> bool {
        true
    }

    fn to_json(&self) -> (written: Json) {
        Json::Int(*self as i128)
    }
}

impl FromJson for i64 {
    open spec fn reading(json: JsonView) -> Option<i64> {
        match json {
            JsonView::Int(n) => if i64::MIN <= n <= i64::MAX {
                Some(n as i64)
            } else {
                None
            },
            _ => None,
        }
    }

    fn from_json(json: &Json) -> (value: Option<i64>) {
        match json {
            Json::Int(n) => if i64::MIN as i128 <= *n && *n <= i64::MAX as i128 {
                Some(*n as i64)
            } else {
                None
            },
            _ => None,
        }
    }

    proof fn reads_back(value: i64) {
    }
}

impl ToJson for u64 {
    open spec fn json(value: u64) -> JsonView {
        JsonView::Int(value as int)
    }

    open spec fn on_calendar(value: u64) -> bool {
        true
    }

    open spec fn wired(value: u64) -> bool {
        true
    }

    fn to_json(&self) -> (written: Json) {
        Json::Int(*self as i128)
    }
}

impl ToJson for Json {
    open spec fn json(value: JsonView) -> JsonView {
        value
    }

    open spec fn on_calendar(value: JsonView) -> bool {
        true
    }

    open spec fn wired(value: JsonView) -> bool {
        true
    }

    fn to_json(&self) -> (written: Json) {
        self.clone()
    }
}

impl FromJson for Json {
    open spec fn reading(json: JsonView) -> Option<JsonView> {
        Some(json)
    }

    fn from_json(json: &Json) -> (value: Option<Json>) {
        Some(json.clone())
    }

    proof fn reads_back(value: JsonView) {
    }
}

impl View for Instant {
    type V = Instant;

    open spec fn view(&self) -> Instant {
        *self
    }
}

impl ToJson for Instant {
    open spec fn json(value: Instant) -> JsonView {
        match value.wire() {
            Some(text) => JsonView::Text(text),
            None => JsonView::Null,
        }
    }

    open spec fn on_calendar(value: Instant) -> bool {
        value.on_calendar()
    }

    open spec fn wired(value: Instant) -> bool {
        value.wire() is Some && instant::reads_as(value.wire()->0, value.seconds, value.nanos)
    }

    fn to_json(&self) -> (written: Json) {
        match self.to_wire() {
            Some(text) => Json::Text(text),
            None => Json::Null,
        }
    }
}

impl FromJson for Instant {
    open spec fn reading(json: JsonView) -> Option<Instant> {
        match json {
            JsonView::Text(text) => match instant::instant_reading(text) {
                Ok((seconds, nanos)) => Some(Instant { seconds, nanos }),
                Err(_) => None,
            },
            _ => None,
        }
    }

    fn from_json(json: &Json) -> (value: Option<Instant>) {
        match json {
            Json::Text(text) => match Instant::read(text.as_str()) {
                Ok(at) => Some(at),
                Err(_) => None,
            },
            _ => None,
        }
    }

    proof fn reads_back(value: Instant) {
    }
}

// ---- what may be missing ----

pub open spec fn opt_json<T: ToJson>(value: Option<T::V>) -> JsonView {
    match value {
        Some(v) => T::json(v),
        None => JsonView::Null,
    }
}

pub open spec fn opt_on_calendar<T: ToJson>(value: Option<T::V>) -> bool {
    value matches Some(v) ==> T::on_calendar(v)
}

pub open spec fn opt_wired<T: ToJson>(value: Option<T::V>) -> bool {
    value matches Some(v) ==> T::wired(v) && T::json(v) != JsonView::Null
}

pub fn opt_to_json<T: ToJson>(value: &Option<T>) -> (written: Json)
    ensures
        written@ == opt_json::<T>(views::opt_view(*value)),
        opt_on_calendar::<T>(views::opt_view(*value)) ==> (views::opt_view(*value) matches Some(v)
            ==> T::wired(v)),
{
    match value {
        Some(v) => v.to_json(),
        None => Json::Null,
    }
}

// ---- lists ----

pub open spec fn list_json<T: ToJson>(items: Seq<T::V>) -> JsonView {
    JsonView::List(Seq::new(items.len(), |i: int| T::json(items[i])))
}

pub open spec fn all_on_calendar<T: ToJson>(items: Seq<T::V>) -> bool {
    forall|i: int| 0 <= i < items.len() ==> T::on_calendar(#[trigger] items[i])
}

pub open spec fn all_wired<T: ToJson>(items: Seq<T::V>) -> bool {
    forall|i: int| 0 <= i < items.len() ==> T::wired(#[trigger] items[i])
}

pub fn list_to_json<T: ToJson>(items: &Vec<T>) -> (written: Json)
    ensures
        written@ == list_json::<T>(views::views(items@)),
        all_on_calendar::<T>(views::views(items@)) ==> all_wired::<T>(views::views(items@)),
{
    let ghost all = views::views(items@);
    let mut list: Vec<Json> = Vec::new();
    let mut index: usize = 0;
    while index < items.len()
        invariant
            index <= items@.len(),
            all == views::views(items@),
            list@.len() == index,
            forall|i: int| 0 <= i < index ==> (#[trigger] list@[i])@ == T::json(all[i]),
            forall|i: int|
                0 <= i < index && T::on_calendar(all[i]) ==> T::wired(#[trigger] all[i]),
        decreases items@.len() - index,
    {
        assert(all[index as int] == items@[index as int]@);
        list.push(items[index].to_json());
        index += 1;
    }
    let written = Json::List(list);
    proof {
        let expected = list_json::<T>(all)->List_0;
        assert forall|i: int| 0 <= i < list@.len() implies written@->List_0[i] == expected[i] by {
            assert(list@[i]@ == T::json(all[i]));
        }
        assert(written@->List_0 =~= expected);
    }
    written
}

/// What the items of a list read as, if all of them do.
pub open spec fn items_reading<T: FromJson>(items: Seq<JsonView>) -> Option<Seq<T::V>>
    decreases items.len(),
{
    if items.len() == 0 {
        Some(Seq::empty())
    } else {
        match (items_reading::<T>(items.drop_last()), T::reading(items.last())) {
            (Some(front), Some(last)) => Some(front.push(last)),
            _ => None,
        }
    }
}

pub open spec fn list_reading<T: FromJson>(json: JsonView) -> Option<Seq<T::V>> {
    match json {
        JsonView::List(items) => items_reading::<T>(items),
        _ => None,
    }
}

proof fn items_reading_fails<T: FromJson>(items: Seq<JsonView>, n: int)
    requires
        0 <= n <= items.len(),
        items_reading::<T>(items.take(n)) is None,
    ensures
        items_reading::<T>(items) is None,
    decreases items.len() - n,
{
    if n < items.len() {
        assert(items.take(n + 1).drop_last() =~= items.take(n));
        items_reading_fails::<T>(items, n + 1);
    } else {
        assert(items.take(n) =~= items);
    }
}

/// What a list of values read as may be, for a result that holds them.
pub open spec fn list_view<T: View>(items: Option<Vec<T>>) -> Option<Seq<T::V>> {
    match items {
        Some(v) => Some(views::views(v@)),
        None => None,
    }
}

pub fn list_from_json<T: FromJson>(json: &Json) -> (items: Option<Vec<T>>)
    ensures
        list_view(items) == list_reading::<T>(json@),
{
    match json {
        Json::List(list) => {
            let ghost all = json@->List_0;
            let mut items: Vec<T> = Vec::new();
            let mut index: usize = 0;
            assert(all.take(0) =~= Seq::<JsonView>::empty());
            assert(views::views(items@) =~= Seq::empty());
            while index < list.len()
                invariant
                    index <= list@.len(),
                    *json == Json::List(*list),
                    all == json@->List_0,
                    all.len() == list@.len(),
                    items_reading::<T>(all.take(index as int)) == Some(views::views(items@)),
                decreases list@.len() - index,
            {
                assert(all.take(index + 1).drop_last() =~= all.take(index as int));
                assert(all.take(index + 1).last() == list@[index as int]@);
                match T::from_json(&list[index]) {
                    Some(item) => {
                        let ghost before = items@;
                        let ghost value = item@;
                        items.push(item);
                        assert(views::views(items@) =~= views::views(before).push(value));
                    },
                    None => {
                        proof {
                            items_reading_fails::<T>(all, index + 1);
                        }
                        return None;
                    },
                }
                index += 1;
            }
            assert(all.take(index as int) =~= all);
            Some(items)
        },
        _ => None,
    }
}

pub proof fn list_reads_back<T: FromJson>(items: Seq<T::V>)
    requires
        all_wired::<T>(items),
    ensures
        list_reading::<T>(list_json::<T>(items)) == Some(items),
    decreases items.len(),
{
    let written = list_json::<T>(items)->List_0;
    if items.len() == 0 {
        assert(items =~= Seq::empty());
    } else {
        let front = items.drop_last();
        assert forall|i: int| 0 <= i < front.len() implies T::wired(#[trigger] front[i]) by {
            assert(front[i] == items[i]);
        }
        list_reads_back::<T>(front);
        assert(written.drop_last() =~= list_json::<T>(front)->List_0);
        assert(T::wired(items[items.len() - 1]));
        T::reads_back(items.last());
        assert(items =~= front.push(items.last()));
    }
}

// ---- maps ----

pub open spec fn entries_of<T: ToJson>(
    entries: Map<Seq<char>, T::V>,
    keys: Seq<Seq<char>>,
) -> Seq<(Seq<char>, JsonView)> {
    Seq::new(keys.len(), |i: int| (keys[i], T::json(entries[keys[i]])))
}

/// An object with the entries in ascending order.
pub open spec fn map_json<T: ToJson>(entries: Map<Seq<char>, T::V>) -> JsonView {
    JsonView::Object(entries_of::<T>(entries, catalog::listing::<String>(entries.dom())))
}

pub fn map_to_json<T: ToJson>(entries: &Catalog<String, T>) -> (written: Json)
    ensures
        written@ == map_json::<T>(entries@),
        entries@.dom().finite(),
{
    let len = entries.len();
    let ghost keys = entries.keys();
    let mut members: Vec<(String, Json)> = Vec::new();
    let mut index: usize = 0;
    while index < len
        invariant
            index <= len,
            len == keys.len(),
            keys == entries.keys(),
            members@.len() == index,
            forall|i: int|
                #![trigger members@[i]]
                0 <= i < index ==> members@[i].0@ == keys[i] && members@[i].1@ == T::json(
                    entries@[keys[i]],
                ),
        decreases len - index,
    {
        members.push((entries.key_at(index).clone(), entries.value_at(index).to_json()));
        index += 1;
    }
    let written = Json::Object(members);
    proof {
        let expected = entries_of::<T>(entries@, keys);
        assert forall|i: int| 0 <= i < members@.len() implies written@->Object_0[i]
            == expected[i] by {
            assert(members@[i].0@ == keys[i]);
        }
        assert(written@->Object_0 =~= expected);
    }
    written
}

/// What the members of an object read as, if all of them do; the last of one key
/// counts.
pub open spec fn members_reading<T: FromJson>(members: Seq<(Seq<char>, JsonView)>) -> Option<
    Map<Seq<char>, T::V>,
>
    decreases members.len(),
{
    if members.len() == 0 {
        Some(Map::empty())
    } else {
        match (members_reading::<T>(members.drop_last()), T::reading(members.last().1)) {
            (Some(front), Some(last)) => Some(front.insert(members.last().0, last)),
            _ => None,
        }
    }
}

pub open spec fn map_reading<T: FromJson>(json: JsonView) -> Option<Map<Seq<char>, T::V>> {
    match json {
        JsonView::Object(members) => members_reading::<T>(members),
        _ => None,
    }
}

proof fn members_reading_fails<T: FromJson>(members: Seq<(Seq<char>, JsonView)>, n: int)
    requires
        0 <= n <= members.len(),
        members_reading::<T>(members.take(n)) is None,
    ensures
        members_reading::<T>(members) is None,
    decreases members.len() - n,
{
    if n < members.len() {
        assert(members.take(n + 1).drop_last() =~= members.take(n));
        members_reading_fails::<T>(members, n + 1);
    } else {
        assert(members.take(n) =~= members);
    }
}

pub fn map_from_json<T: FromJson>(json: &Json) -> (entries: Option<Catalog<String, T>>)
    ensures
        views::opt_view(entries) == map_reading::<T>(json@),
{
    match json {
        Json::Object(members) => {
            let ghost all = json@->Object_0;
            let mut entries: Catalog<String, T> = Catalog::new();
            let mut index: usize = 0;
            assert(all.take(0) =~= Seq::<(Seq<char>, JsonView)>::empty());
            while index < members.len()
                invariant
                    index <= members@.len(),
                    *json == Json::Object(*members),
                    all == json@->Object_0,
                    all.len() == members@.len(),
                    members_reading::<T>(all.take(index as int)) == Some(entries@),
                decreases members@.len() - index,
            {
                assert(all.take(index + 1).drop_last() =~= all.take(index as int));
                assert(all.take(index + 1).last() == (
                    members@[index as int].0@,
                    members@[index as int].1@,
                ));
                match T::from_json(&members[index].1) {
                    Some(value) => {
                        entries.insert(members[index].0.clone(), value);
                    },
                    None => {
                        proof {
                            members_reading_fails::<T>(all, index + 1);
                        }
                        return None;
                    },
                }
                index += 1;
            }
            assert(all.take(index as int) =~= all);
            Some(entries)
        },
        _ => None,
    }
}

proof fn members_read_back<T: FromJson>(entries: Map<Seq<char>, T::V>, keys: Seq<Seq<char>>)
    requires
        forall|i: int| 0 <= i < keys.len() ==> T::wired(entries[#[trigger] keys[i]]),
    ensures
        members_reading::<T>(entries_of::<T>(entries, keys)) == Some(
            Map::new(|k: Seq<char>| keys.contains(k), |k: Seq<char>| entries[k]),
        ),
    decreases keys.len(),
{
    let written = entries_of::<T>(entries, keys);
    let held = Map::new(|k: Seq<char>| keys.contains(k), |k: Seq<char>| entries[k]);
    if keys.len() == 0 {
        assert(held =~= Map::empty());
    } else {
        let front = keys.drop_last();
        assert forall|i: int| 0 <= i < front.len() implies T::wired(
            entries[#[trigger] front[i]],
        ) by {
            assert(front[i] == keys[i]);
        }
        members_read_back::<T>(entries, front);
        assert(written.drop_last() =~= entries_of::<T>(entries, front));
        assert(T::wired(entries[keys[keys.len() - 1]]));
        T::reads_back(entries[keys.last()]);
        let before = Map::new(|k: Seq<char>| front.contains(k), |k: Seq<char>| entries[k]);
        assert forall|k: Seq<char>| keys.contains(k) <==> front.contains(k) || k == keys.last() by {
            if keys.contains(k) && k != keys.last() {
                let i = choose|i: int| 0 <= i < keys.len() && keys[i] == k;
                assert(front[i] == k);
            }
            if front.contains(k) {
                let i = choose|i: int| 0 <= i < front.len() && front[i] == k;
                assert(keys[i] == k);
            }
            assert(keys[keys.len() - 1] == keys.last());
        }
        assert(held =~= before.insert(keys.last(), entries[keys.last()]));
    }
}

/// A map is read back entry by entry.
pub proof fn map_reads_back<T: FromJson>(entries: Map<Seq<char>, T::V>)
    requires
        entries.dom().finite(),
        forall|k: Seq<char>| entries.contains_key(k) ==> T::wired(#[trigger] entries[k]),
    ensures
        map_reading::<T>(map_json::<T>(entries)) == Some(entries),
{
    let keys = catalog::listing::<String>(entries.dom());
    catalog::listing_exists::<String>(entries.dom());
    assert forall|i: int| 0 <= i < keys.len() implies T::wired(entries[#[trigger] keys[i]]) by {
        assert(keys.to_set().contains(keys[i]));
    }
    members_read_back::<T>(entries, keys);
    let held = Map::new(|k: Seq<char>| keys.contains(k), |k: Seq<char>| entries[k]);
    assert forall|k: Seq<char>| keys.contains(k) <==> entries.contains_key(k) by {
        assert(keys.to_set().contains(k) <==> entries.dom().contains(k));
    }
    assert(held =~= entries);
}

// ---- members ----

/// A member that has to be there.
pub open spec fn needed<T: FromJson>(json: JsonView, key: Seq<char>) -> Option<T::V> {
    match json.member(key) {
        Some(value) => T::reading(value),
        None => None,
    }
}

/// A member that may be missing, or null.
pub open spec fn optional<T: FromJson>(json: JsonView, key: Seq<char>) -> Option<Option<T::V>> {
    match json.member(key) {
        None => Some(None),
        Some(JsonView::Null) => Some(None),
        Some(value) => match T::reading(value) {
            Some(v) => Some(Some(v)),
            None => None,
        },
    }
}

pub open spec fn needed_list<T: FromJson>(json: JsonView, key: Seq<char>) -> Option<Seq<T::V>> {
    match json.member(key) {
        Some(value) => list_reading::<T>(value),
        None => None,
    }
}

pub open spec fn needed_map<T: FromJson>(json: JsonView, key: Seq<char>) -> Option<
    Map<Seq<char>, T::V>,
> {
    match json.member(key) {
        Some(value) => map_reading::<T>(value),
        None => None,
    }
}

pub fn read_needed<T: FromJson>(json: &Json, key: &str) -> (value: Option<T>)
    ensures
        views::opt_view(value) == needed::<T>(json@, key@),
{
    match json.get(key) {
        Some(value) => T::from_json(value),
        None => None,
    }
}

/// What an optional member read as, for a result that holds it.
pub open spec fn opt_opt_view<T: View>(value: Option<Option<T>>) -> Option<Option<T::V>> {
    match value {
        Some(v) => Some(views::opt_view(v)),
        None => None,
    }
}

pub fn read_optional<T: FromJson>(json: &Json, key: &str) -> (value: Option<Option<T>>)
    ensures
        opt_opt_view(value) == optional::<T>(json@, key@),
{
    match json.get(key) {
        None => Some(None),
        Some(Json::Null) => Some(None),
        Some(value) => match T::from_json(value) {
            Some(v) => Some(Some(v)),
            None => None,
        },
    }
}

pub fn read_needed_list<T: FromJson>(json: &Json, key: &str) -> (items: Option<Vec<T>>)
    ensures
        list_view(items) == needed_list::<T>(json@, key@),
{
    match json.get(key) {
        Some(value) => list_from_json(value),
        None => None,
    }
}

pub fn read_needed_map<T: FromJson>(json: &Json, key: &str) -> (entries: Option<
    Catalog<String, T>,
>)
    ensures
        views::opt_view(entries) == needed_map::<T>(json@, key@),
{
    match json.get(key) {
        Some(value) => map_from_json(value),
        None => None,
    }
}

/// The keys of an object in the order of its members.
pub open spec fn keys_differ(members: Seq<(Seq<char>, JsonView)>) -> bool {
    forall|i: int, j: int|
        0 <= i < j < members.len() ==> (#[trigger] members[i]).0 != (#[trigger] members[j]).0
}

/// Where keys differ, each member is found under its key.
pub proof fn member_found(members: Seq<(Seq<char>, JsonView)>, i: int)
    requires
        keys_differ(members),
        0 <= i < members.len(),
    ensures
        first_member(members, members[i].0) == Some(members[i].1),
    decreases members.len(),
{
    if i > 0 {
        let rest = members.drop_first();
        assert(members[0].0 != members[i].0);
        assert forall|a: int, b: int| 0 <= a < b < rest.len() implies (#[trigger] rest[a]).0 != (
        #[trigger] rest[b]).0 by {
            assert(rest[a] == members[a + 1]);
            assert(rest[b] == members[b + 1]);
        }
        member_found(rest, i - 1);
    }
}

/// A key that no member has finds none.
pub proof fn member_missing(members: Seq<(Seq<char>, JsonView)>, key: Seq<char>)
    requires
        forall|i: int| 0 <= i < members.len() ==> (#[trigger] members[i]).0 != key,
    ensures
        first_member(members, key) is None,
    decreases members.len(),
{
    if members.len() > 0 {
        let rest = members.drop_first();
        assert forall|i: int| 0 <= i < rest.len() implies (#[trigger] rest[i]).0 != key by {
            assert(rest[i] == members[i + 1]);
        }
        assert(members[0].0 != key);
        member_missing(rest, key);
    }
}

} // verus!

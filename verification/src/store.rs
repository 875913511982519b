//! Stores: where the log is kept, and the rule by which it grows.

use vstd::prelude::*;

use crate::catalog::Replica;
use crate::error;
use crate::error::{AlderError, ErrorView, Result};
use crate::event::{Event, EventDraft, EventDraftView, EventView};
use crate::json;
use crate::json::{Json, JsonView};
use crate::text;
use crate::text::{decimal_text, joined, same_text};
use crate::views;
use crate::views::opt_replica;

verus! {

/// A point of the log: how many events there are, and the store's own name
/// for that point.
#[derive(Debug, PartialEq, Eq)]
pub struct Head {
    pub revision: Option<String>,
    pub seq: u64,
}

#[verifier::ext_equal]
pub struct HeadView {
    pub revision: Option<Seq<char>>,
    pub seq: u64,
}

impl View for Head {
    type V = HeadView;

    open spec fn view(&self) -> HeadView {
        HeadView {
            revision: views::opt_view(self.revision),
            seq: self.seq,
        }
    }
}

impl Replica for Head {
    fn replica(&self) -> (copy: Head) {
        Head {
            revision: opt_replica(&self.revision),
            seq: self.seq,
        }
    }
}

/// An appended event, and the head behind it.
#[derive(Debug, PartialEq, Eq)]
pub struct AppendResult {
    pub head: Head,
    pub event: Event,
}

#[verifier::ext_equal]
pub struct AppendResultView {
    pub head: HeadView,
    pub event: EventView,
}

impl View for AppendResult {
    type V = AppendResultView;

    open spec fn view(&self) -> AppendResultView {
        AppendResultView {
            head: self.head@,
            event: self.event@,
        }
    }
}

impl Replica for AppendResult {
    fn replica(&self) -> (copy: AppendResult) {
        AppendResult {
            head: self.head.replica(),
            event: self.event.replica(),
        }
    }
}

/// What a call that may fail has told.
pub open spec fn told<T: View>(answer: Result<T>) -> core::result::Result<T::V, ErrorView> {
    match answer {
        Ok(value) => Ok(value@),
        Err(error) => Err(error@),
    }
}

pub open spec fn told_events(answer: Result<Vec<Event>>) -> core::result::Result<
    Seq<EventView>,
    ErrorView,
> {
    match answer {
        Ok(events) => Ok(views::views(events@)),
        Err(error) => Err(error@),
    }
}

/// The head of an empty log.
pub open spec fn empty_head() -> HeadView {
    HeadView { revision: None, seq: 0 }
}

pub open spec fn head_json(head: HeadView) -> JsonView {
    json::empty_object().with("revision"@, json::text_or_null(head.revision)).with(
        "seq"@,
        JsonView::Int(head.seq as int),
    )
}

impl Head {
    pub fn empty() -> (head: Head)
        ensures
            head@ == empty_head(),
    {
        Head { revision: None, seq: 0 }
    }

    /// Whether nothing is in the log.
    pub fn is_empty(&self) -> (empty: bool)
        ensures
            empty == (self@.seq == 0),
    {
        self.seq == 0
    }

    /// How many events there are.
    pub fn sequence(&self) -> (seq: u64)
        ensures
            seq == self@.seq,
    {
        self.seq
    }

    /// Whether this is the same point as the other.
    pub fn is_same(&self, other: &Head) -> (same: bool)
        ensures
            same == (self@ == other@),
    {
        self.seq == other.seq && match (&self.revision, &other.revision) {
            (Some(a), Some(b)) => same_text(a.as_str(), b.as_str()),
            (None, None) => true,
            _ => false,
        }
    }

    pub fn to_json(&self) -> (json: Json)
        ensures
            json@ == head_json(self@),
    {
        Json::object().with("revision", Json::optional_text(&self.revision)).with(
            "seq",
            Json::number(self.seq),
        )
    }
}

/// The sequence behind `n` events.
pub open spec fn next_seq(n: nat) -> u64 {
    if n < u64::MAX {
        (n + 1) as u64
    } else {
        u64::MAX
    }
}

/// The refusal of an append to a log that has moved on.
pub open spec fn conflict_error(expected: HeadView, current: HeadView) -> ErrorView {
    error::context_error(
        "head_conflict"@,
        "the shared log advanced before the event was appended"@,
        json::empty_object().with("current_head"@, head_json(current)).with(
            "expected_head"@,
            head_json(expected),
        ),
    )
}

pub fn head_conflict(expected: &Head, current: &Head) -> (error: AlderError)
    ensures
        error@ == conflict_error(expected@, current@),
{
    AlderError::with_context(
        "head_conflict",
        "the shared log advanced before the event was appended".to_owned(),
        Json::object().with("current_head", current.to_json()).with(
            "expected_head",
            expected.to_json(),
        ),
    )
}

/// A place that a log is kept in. Which answers it may give is its own to say, and
/// where it says nothing it may give any; another writer may come between any two
/// calls.
pub trait Store: Sized {
    open spec fn heads(&self, answer: core::result::Result<HeadView, ErrorView>) -> bool {
        true
    }

    open spec fn reads(
        &self,
        head: HeadView,
        answer: core::result::Result<Seq<EventView>, ErrorView>,
    ) -> bool {
        true
    }

    open spec fn appends(
        &self,
        expected: HeadView,
        draft: EventDraftView,
        answer: core::result::Result<AppendResultView, ErrorView>,
        after: Self,
    ) -> bool {
        true
    }

    /// Where the log stands.
    fn current_head(&self) -> (answer: Result<Head>)
        ensures
            self.heads(told(answer)),
    ;

    /// The events up to a head.
    fn read_events(&self, head: &Head) -> (answer: Result<Vec<Event>>)
        ensures
            self.reads(head@, told_events(answer)),
    ;

    /// Puts the draft behind the expected head, if the log still stands there.
    fn append(&mut self, expected: &Head, draft: &EventDraft) -> (answer: Result<AppendResult>)
        ensures
            old(self).appends(expected@, draft@, told(answer), *final(self)),
    ;
}

/// A log in memory.
#[derive(Debug)]
pub struct MemoryStore {
    events: Vec<Event>,
}

impl View for MemoryStore {
    type V = Seq<EventView>;

    closed spec fn view(&self) -> Seq<EventView> {
        views::views(self.events@)
    }
}

/// The head behind `n` events in memory.
pub open spec fn memory_head_at(n: u64) -> HeadView {
    HeadView {
        revision: if n > 0 {
            Some("memory-"@ + text::decimal(n as nat))
        } else {
            None
        },
        seq: n,
    }
}

pub fn memory_head(length: u64) -> (head: Head)
    ensures
        head@ == memory_head_at(length),
{
    Head {
        revision: if length > 0 {
            Some(joined("memory-", decimal_text(length).as_str()))
        } else {
            None
        },
        seq: length,
    }
}

/// The first event with this ID.
pub open spec fn event_with_id(events: Seq<EventView>, id: Seq<char>) -> Option<EventView>
    decreases events.len(),
{
    if events.len() == 0 {
        None
    } else {
        match event_with_id(events.drop_last(), id) {
            Some(event) => Some(event),
            None => if events.last().id == id {
                Some(events.last())
            } else {
                None
            },
        }
    }
}

/// What an append to a log in memory answers. An event that is there already
/// is not appended again; else the log has to stand at the expected head.
pub open spec fn memory_append(
    events: Seq<EventView>,
    expected: HeadView,
    draft: EventDraftView,
) -> core::result::Result<AppendResultView, ErrorView> {
    match event_with_id(events, draft.id) {
        Some(existing) => Ok(
            AppendResultView { head: memory_head_at(existing.seq), event: existing },
        ),
        None => if memory_head_at(events.len() as u64) != expected {
            Err(conflict_error(expected, memory_head_at(events.len() as u64)))
        } else {
            Ok(
                AppendResultView {
                    head: memory_head_at(next_seq(events.len())),
                    event: draft.at_seq(next_seq(events.len())),
                },
            )
        },
    }
}

/// The log after an append: one event longer where the draft was new and the
/// log stood at the expected head, else as it was.
pub open spec fn memory_after(
    events: Seq<EventView>,
    expected: HeadView,
    draft: EventDraftView,
) -> Seq<EventView> {
    if event_with_id(events, draft.id) is None && memory_head_at(events.len() as u64) == expected {
        events.push(draft.at_seq(next_seq(events.len())))
    } else {
        events
    }
}

pub open spec fn unknown_head(head: HeadView) -> ErrorView {
    error::context_error(
        "invalid_head"@,
        "the requested memory head does not exist"@,
        json::empty_object().with("head"@, head_json(head)),
    )
}

pub open spec fn memory_read(
    events: Seq<EventView>,
    head: HeadView,
) -> core::result::Result<Seq<EventView>, ErrorView> {
    if head.seq > events.len() {
        Err(unknown_head(head))
    } else {
        Ok(events.take(head.seq as int))
    }
}

/// The first event with this ID.
pub fn find_event<'a>(events: &'a Vec<Event>, id: &str) -> (found: Option<&'a Event>)
    ensures
        match found {
            Some(event) => event_with_id(views::views(events@), id@) == Some(event@),
            None => event_with_id(views::views(events@), id@) is None,
        },
{
    let ghost all = views::views(events@);
    let mut index: usize = 0;
    assert(all.take(0) =~= Seq::empty());
    while index < events.len()
        invariant
            index <= events@.len(),
            all == views::views(events@),
            event_with_id(all.take(index as int), id@) is None,
        decreases events@.len() - index,
    {
        assert(all.take(index + 1).drop_last() =~= all.take(index as int));
        assert(all.take(index + 1).last() == events@[index as int]@);
        if same_text(events[index].id.as_str(), id) {
            proof {
                event_with_id_extends(all, id@, index + 1);
            }
            return Some(&events[index]);
        }
        index += 1;
    }
    assert(all.take(index as int) =~= all);
    None
}

proof fn event_with_id_extends(events: Seq<EventView>, id: Seq<char>, n: int)
    requires
        0 <= n <= events.len(),
        event_with_id(events.take(n), id) is Some,
    ensures
        event_with_id(events, id) == event_with_id(events.take(n), id),
    decreases events.len() - n,
{
    if n < events.len() {
        assert(events.take(n + 1).drop_last() =~= events.take(n));
        event_with_id_extends(events, id, n + 1);
    } else {
        assert(events.take(n) =~= events);
    }
}

/// An event is found by its ID exactly where one has it.
pub proof fn event_with_id_finds(events: Seq<EventView>, id: Seq<char>)
    ensures
        event_with_id(events, id) is Some <==> exists|i: int|
            0 <= i < events.len() && (#[trigger] events[i]).id == id,
        event_with_id(events, id) matches Some(e) ==> e.id == id && events.contains(e),
    decreases events.len(),
{
    if events.len() > 0 {
        let front = events.drop_last();
        event_with_id_finds(front, id);
        if event_with_id(front, id) is Some {
            let i = choose|i: int| 0 <= i < front.len() && (#[trigger] front[i]).id == id;
            assert(events[i].id == id);
            let j = choose|j: int| 0 <= j < front.len() && front[j] == event_with_id(front, id)->0;
            assert(events[j] == event_with_id(front, id)->0);
        } else if events.last().id == id {
            assert(events[events.len() - 1].id == id);
        } else if exists|i: int| 0 <= i < events.len() && (#[trigger] events[i]).id == id {
            let i = choose|i: int| 0 <= i < events.len() && (#[trigger] events[i]).id == id;
            assert(front[i].id == id);
        }
    }
}

impl MemoryStore {
    pub fn new() -> (store: MemoryStore)
        ensures
            store@ == Seq::<EventView>::empty(),
    {
        let store = MemoryStore { events: Vec::new() };
        assert(store@ =~= Seq::<EventView>::empty());
        store
    }
}

impl Store for MemoryStore {
    open spec fn heads(&self, answer: core::result::Result<HeadView, ErrorView>) -> bool {
        answer == Ok::<HeadView, ErrorView>(memory_head_at(self@.len() as u64))
    }

    open spec fn reads(
        &self,
        head: HeadView,
        answer: core::result::Result<Seq<EventView>, ErrorView>,
    ) -> bool {
        answer == memory_read(self@, head)
    }

    open spec fn appends(
        &self,
        expected: HeadView,
        draft: EventDraftView,
        answer: core::result::Result<AppendResultView, ErrorView>,
        after: MemoryStore,
    ) -> bool {
        answer == memory_append(self@, expected, draft) && after@ == memory_after(
            self@,
            expected,
            draft,
        )
    }

    fn current_head(&self) -> (answer: Result<Head>) {
        Ok(memory_head(self.events.len() as u64))
    }

    fn read_events(&self, head: &Head) -> (answer: Result<Vec<Event>>) {
        if head.seq > self.events.len() as u64 {
            return Err(
                AlderError::with_context(
                    "invalid_head",
                    "the requested memory head does not exist".to_owned(),
                    Json::object().with("head", head.to_json()),
                ),
            );
        }
        let end = head.seq as usize;
        let mut events: Vec<Event> = Vec::new();
        let mut index: usize = 0;
        while index < end
            invariant
                index <= end <= self.events@.len(),
                events@.len() == index,
                forall|i: int| 0 <= i < index ==> (#[trigger] events@[i])@ == self.events@[i]@,
            decreases end - index,
        {
            events.push(self.events[index].replica());
            index += 1;
        }
        assert(views::views(events@) =~= self@.take(head@.seq as int));
        Ok(events)
    }

    fn append(&mut self, expected: &Head, draft: &EventDraft) -> (answer: Result<AppendResult>) {
        if let Some(existing) = find_event(&self.events, draft.id.as_str()) {
            return Ok(AppendResult { head: memory_head(existing.seq), event: existing.replica() });
        }
        let length = self.events.len() as u64;
        let current = memory_head(length);
        if !current.is_same(expected) {
            return Err(head_conflict(expected, &current));
        }
        let seq: u64 = if length < u64::MAX {
            length + 1
        } else {
            u64::MAX
        };
        let event = draft.materialize(seq);
        let copy = event.replica();
        let ghost before = self@;
        self.events.push(copy);
        assert(self@ =~= before.push(event@));
        Ok(AppendResult { head: memory_head(seq), event })
    }
}

} // verus!

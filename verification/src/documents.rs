//! The documents that queries and mutations answer with.

use vstd::prelude::*;

use crate::attempt::{Attempt, AttemptCheck, AttemptCheckView, AttemptView};
use crate::catalog;
use crate::catalog::Replica;
use crate::error;
use crate::error::{AlderError, ErrorView, Result};
use crate::event::{Event, EventPayloadView, EventView};
use crate::instant::Instant;
use crate::json;
use crate::json::{Json, JsonView};
use crate::observation::{Observation, ObservationView};
use crate::project::{ProjectState, StateView};
use crate::question::{Question, QuestionAnswer, QuestionAnswerView, QuestionView};
use crate::rules;
use crate::selection;
use crate::selection::{chosen, lines_of, values_of, Tell, Test};
use crate::sorting;
use crate::sorting::{sort, Ranked};
use crate::store::{Head, HeadView};
use crate::text;
use crate::text::{joined, join_texts, same_text};
use crate::views;
use crate::views::opt_replica;
use crate::wire;
use crate::wire::{list_to_json, map_to_json, opt_to_json, ToJson};
use crate::work::{CheckDefinition, Work, WorkView};

verus! {

// ---- records ----

pub open spec fn work_json(work: WorkView) -> JsonView {
    json::empty_object().with("block_reason"@, json::text_or_null(work.block_reason)).with(
        "block_until"@,
        wire::opt_json::<Instant>(work.block_until),
    ).with("changed_seq"@, JsonView::Int(work.changed_seq as int)).with(
        "checks"@,
        wire::list_json::<CheckDefinition>(work.checks),
    ).with("id"@, JsonView::Text(work.id)).with(
        "opened_seq"@,
        JsonView::Int(work.opened_seq as int),
    ).with("outcome"@, json::text_or_null(work.outcome)).with(
        "priority"@,
        JsonView::Int(work.priority as int),
    ).with("requires"@, json::text_list(work.requires)).with(
        "spec"@,
        json::text_or_null(work.spec),
    ).with("state"@, JsonView::Text(work.state.name())).with("title"@, JsonView::Text(work.title))
}

impl ToJson for Work {
    open spec fn json(value: WorkView) -> JsonView {
        work_json(value)
    }

    open spec fn on_calendar(value: WorkView) -> bool {
        true
    }

    open spec fn wired(value: WorkView) -> bool {
        true
    }

    fn to_json(&self) -> (written: Json) {
        Json::object().with("block_reason", Json::optional_text(&self.block_reason)).with(
            "block_until",
            opt_to_json(&self.block_until),
        ).with("changed_seq", Json::number(self.changed_seq)).with(
            "checks",
            list_to_json(&self.checks),
        ).with("id", Json::text(self.id.as_str())).with("opened_seq", Json::number(self.opened_seq)).with(
            "outcome",
            Json::optional_text(&self.outcome),
        ).with("priority", self.priority.to_json()).with("requires", Json::texts(&self.requires)).with(
            "spec",
            Json::optional_text(&self.spec),
        ).with("state", Json::text(self.state.as_str())).with("title", Json::text(self.title.as_str()))
    }
}

pub open spec fn attempt_check_json(check: AttemptCheckView) -> JsonView {
    json::empty_object().with("evidence"@, json::text_or_null(check.evidence)).with(
        "key"@,
        JsonView::Text(check.key),
    ).with("status"@, JsonView::Text(check.status.name())).with(
        "updated_seq"@,
        json::int_or_null(check.updated_seq),
    )
}

impl ToJson for AttemptCheck {
    open spec fn json(value: AttemptCheckView) -> JsonView {
        attempt_check_json(value)
    }

    open spec fn on_calendar(value: AttemptCheckView) -> bool {
        true
    }

    open spec fn wired(value: AttemptCheckView) -> bool {
        true
    }

    fn to_json(&self) -> (written: Json) {
        Json::object().with("evidence", Json::optional_text(&self.evidence)).with(
            "key",
            Json::text(self.key.as_str()),
        ).with("status", Json::text(self.status.as_str())).with(
            "updated_seq",
            Json::optional_number(self.updated_seq),
        )
    }
}

pub open spec fn attempt_json(attempt: AttemptView) -> JsonView {
    json::empty_object().with("bound_seq"@, json::int_or_null(attempt.bound_seq)).with(
        "checks"@,
        wire::map_json::<AttemptCheck>(attempt.checks),
    ).with("ended_seq"@, json::int_or_null(attempt.ended_seq)).with(
        "handle"@,
        json::text_or_null(attempt.handle),
    ).with("id"@, JsonView::Text(attempt.id)).with(
        "metadata"@,
        wire::map_json::<Json>(attempt.metadata),
    ).with("note"@, json::text_or_null(attempt.note)).with(
        "outcome"@,
        rules::outcome_or_null(attempt.outcome),
    ).with("started_seq"@, JsonView::Int(attempt.started_seq as int)).with(
        "state"@,
        JsonView::Text(attempt.state.name()),
    ).with("tier"@, json::text_or_null(attempt.tier)).with(
        "updated_seq"@,
        JsonView::Int(attempt.updated_seq as int),
    ).with("work_id"@, JsonView::Text(attempt.work_id))
}

impl ToJson for Attempt {
    open spec fn json(value: AttemptView) -> JsonView {
        attempt_json(value)
    }

    open spec fn on_calendar(value: AttemptView) -> bool {
        true
    }

    open spec fn wired(value: AttemptView) -> bool {
        true
    }

    fn to_json(&self) -> (written: Json) {
        let outcome = match self.outcome {
            Some(outcome) => Json::text(outcome.as_str()),
            None => Json::Null,
        };
        Json::object().with("bound_seq", Json::optional_number(self.bound_seq)).with(
            "checks",
            map_to_json(&self.checks),
        ).with("ended_seq", Json::optional_number(self.ended_seq)).with(
            "handle",
            Json::optional_text(&self.handle),
        ).with("id", Json::text(self.id.as_str())).with("metadata", map_to_json(&self.metadata)).with(
            "note",
            Json::optional_text(&self.note),
        ).with("outcome", outcome).with("started_seq", Json::number(self.started_seq)).with(
            "state",
            Json::text(self.state.as_str()),
        ).with("tier", Json::optional_text(&self.tier)).with(
            "updated_seq",
            Json::number(self.updated_seq),
        ).with("work_id", Json::text(self.work_id.as_str()))
    }
}

pub open spec fn answer_json(answer: QuestionAnswerView) -> JsonView {
    json::empty_object().with("actor"@, JsonView::Text(answer.actor)).with(
        "answer"@,
        JsonView::Text(answer.answer),
    ).with("seq"@, JsonView::Int(answer.seq as int))
}

impl ToJson for QuestionAnswer {
    open spec fn json(value: QuestionAnswerView) -> JsonView {
        answer_json(value)
    }

    open spec fn on_calendar(value: QuestionAnswerView) -> bool {
        true
    }

    open spec fn wired(value: QuestionAnswerView) -> bool {
        true
    }

    fn to_json(&self) -> (written: Json) {
        Json::object().with("actor", Json::text(self.actor.as_str())).with(
            "answer",
            Json::text(self.answer.as_str()),
        ).with("seq", Json::number(self.seq))
    }
}

pub open spec fn question_json(question: QuestionView) -> JsonView {
    json::empty_object().with("answer"@, json::text_or_null(question.answer)).with(
        "answered_by"@,
        json::text_or_null(question.answered_by),
    ).with("answered_seq"@, json::int_or_null(question.answered_seq)).with(
        "answers"@,
        wire::list_json::<QuestionAnswer>(question.answers),
    ).with("asked_seq"@, JsonView::Int(question.asked_seq as int)).with(
        "id"@,
        JsonView::Text(question.id),
    ).with("text"@, JsonView::Text(question.text)).with("work_id"@, JsonView::Text(question.work_id))
}

impl ToJson for Question {
    open spec fn json(value: QuestionView) -> JsonView {
        question_json(value)
    }

    open spec fn on_calendar(value: QuestionView) -> bool {
        true
    }

    open spec fn wired(value: QuestionView) -> bool {
        true
    }

    fn to_json(&self) -> (written: Json) {
        Json::object().with("answer", Json::optional_text(&self.answer)).with(
            "answered_by",
            Json::optional_text(&self.answered_by),
        ).with("answered_seq", Json::optional_number(self.answered_seq)).with(
            "answers",
            list_to_json(&self.answers),
        ).with("asked_seq", Json::number(self.asked_seq)).with("id", Json::text(self.id.as_str())).with(
            "text",
            Json::text(self.text.as_str()),
        ).with("work_id", Json::text(self.work_id.as_str()))
    }
}

pub open spec fn observation_json(observation: ObservationView) -> JsonView {
    json::empty_object().with("field"@, JsonView::Text(observation.key.field)).with(
        "level"@,
        JsonView::Text(observation.level),
    ).with("observer"@, JsonView::Text(observation.key.observer)).with(
        "reported_seq"@,
        JsonView::Int(observation.reported_seq as int),
    ).with("subject"@, JsonView::Text(observation.key.subject))
}

impl ToJson for Observation {
    open spec fn json(value: ObservationView) -> JsonView {
        observation_json(value)
    }

    open spec fn on_calendar(value: ObservationView) -> bool {
        true
    }

    open spec fn wired(value: ObservationView) -> bool {
        true
    }

    fn to_json(&self) -> (written: Json) {
        Json::object().with("field", Json::text(self.key.field.as_str())).with(
            "level",
            Json::text(self.level.as_str()),
        ).with("observer", Json::text(self.key.observer.as_str())).with(
            "reported_seq",
            Json::number(self.reported_seq),
        ).with("subject", Json::text(self.key.subject.as_str()))
    }
}

/// Something that wants to be looked at.
#[derive(Debug, PartialEq, Eq)]
pub struct ReconcileFinding {
    pub kind: String,
    pub attempt_id: Option<String>,
    pub handle: Option<String>,
    pub status: String,
    pub detail: String,
    pub suggested_command: Option<String>,
    pub metadata: Json,
}

#[verifier::ext_equal]
pub struct FindingView {
    pub kind: Seq<char>,
    pub attempt_id: Option<Seq<char>>,
    pub handle: Option<Seq<char>>,
    pub status: Seq<char>,
    pub detail: Seq<char>,
    pub suggested_command: Option<Seq<char>>,
    pub metadata: JsonView,
}

impl View for ReconcileFinding {
    type V = FindingView;

    open spec fn view(&self) -> FindingView {
        FindingView {
            kind: self.kind@,
            attempt_id: views::opt_view(self.attempt_id),
            handle: views::opt_view(self.handle),
            status: self.status@,
            detail: self.detail@,
            suggested_command: views::opt_view(self.suggested_command),
            metadata: self.metadata@,
        }
    }
}

impl Replica for ReconcileFinding {
    fn replica(&self) -> (copy: ReconcileFinding) {
        ReconcileFinding {
            kind: self.kind.clone(),
            attempt_id: opt_replica(&self.attempt_id),
            handle: opt_replica(&self.handle),
            status: self.status.clone(),
            detail: self.detail.clone(),
            suggested_command: opt_replica(&self.suggested_command),
            metadata: self.metadata.clone(),
        }
    }
}

pub open spec fn finding_json(finding: FindingView) -> JsonView {
    json::empty_object().with("attempt_id"@, json::text_or_null(finding.attempt_id)).with(
        "detail"@,
        JsonView::Text(finding.detail),
    ).with("handle"@, json::text_or_null(finding.handle)).with(
        "kind"@,
        JsonView::Text(finding.kind),
    ).with("metadata"@, finding.metadata).with("status"@, JsonView::Text(finding.status)).with(
        "suggested_command"@,
        json::text_or_null(finding.suggested_command),
    )
}

impl ToJson for ReconcileFinding {
    open spec fn json(value: FindingView) -> JsonView {
        finding_json(value)
    }

    open spec fn on_calendar(value: FindingView) -> bool {
        true
    }

    open spec fn wired(value: FindingView) -> bool {
        true
    }

    fn to_json(&self) -> (written: Json) {
        Json::object().with("attempt_id", Json::optional_text(&self.attempt_id)).with(
            "detail",
            Json::text(self.detail.as_str()),
        ).with("handle", Json::optional_text(&self.handle)).with(
            "kind",
            Json::text(self.kind.as_str()),
        ).with("metadata", self.metadata.clone()).with(
            "status",
            Json::text(self.status.as_str()),
        ).with("suggested_command", Json::optional_text(&self.suggested_command))
    }
}

/// An event as lists of events show it.
pub open spec fn summary(event: EventView) -> JsonView {
    json::empty_object().with("actor"@, JsonView::Text(event.actor)).with(
        "at"@,
        <Instant as ToJson>::json(event.at),
    ).with("id"@, JsonView::Text(event.id)).with("seq"@, JsonView::Int(event.seq as int)).with(
        "type"@,
        JsonView::Text(event.payload.event_type()),
    )
}

pub fn event_summary(event: &Event) -> (document: Json)
    ensures
        document@ == summary(event@),
{
    Json::object().with("actor", Json::text(event.actor.as_str())).with(
        "at",
        event.at.to_json(),
    ).with("id", Json::text(event.id.as_str())).with("seq", Json::number(event.seq)).with(
        "type",
        Json::text(event.payload.event_type()),
    )
}

/// An event in full.
pub open spec fn event_json(event: EventView) -> JsonView {
    json::empty_object().with("actor"@, JsonView::Text(event.actor)).with(
        "at"@,
        <Instant as ToJson>::json(event.at),
    ).with("body"@, event.payload.body()).with("id"@, JsonView::Text(event.id)).with(
        "schema"@,
        JsonView::Text(event.schema),
    ).with("seq"@, JsonView::Int(event.seq as int)).with(
        "type"@,
        JsonView::Text(event.payload.event_type()),
    )
}

impl ToJson for Event {
    open spec fn json(value: EventView) -> JsonView {
        event_json(value)
    }

    open spec fn on_calendar(value: EventView) -> bool {
        true
    }

    open spec fn wired(value: EventView) -> bool {
        true
    }

    fn to_json(&self) -> (written: Json) {
        Json::object().with("actor", Json::text(self.actor.as_str())).with(
            "at",
            self.at.to_json(),
        ).with("body", self.payload.to_body()).with("id", Json::text(self.id.as_str())).with(
            "schema",
            Json::text(self.schema.as_str()),
        ).with("seq", Json::number(self.seq)).with("type", Json::text(self.payload.event_type()))
    }
}

/// The summaries of the events.
pub open spec fn summaries(events: Seq<EventView>) -> JsonView {
    JsonView::List(events.map_values(|e: EventView| summary(e)))
}

pub fn event_summaries(events: &Vec<Event>) -> (document: Json)
    ensures
        document@ == summaries(views::views(events@)),
{
    let ghost told = views::views(events@).map_values(|e: EventView| summary(e));
    let mut items: Vec<Json> = Vec::new();
    let mut index: usize = 0;
    while index < events.len()
        invariant
            index <= events@.len(),
            items@.len() == index,
            told == views::views(events@).map_values(|e: EventView| summary(e)),
            forall|i: int| 0 <= i < index ==> (#[trigger] items@[i])@ == told[i],
        decreases events@.len() - index,
    {
        items.push(event_summary(&events[index]));
        index += 1;
    }
    let document = Json::List(items);
    proof {
        assert forall|i: int| 0 <= i < told.len() implies document@->List_0[i] == told[i] by {
            assert(items@[i]@ == told[i]);
        }
        assert(document@->List_0 =~= told);
    }
    document
}

/// The last ten.
pub open spec fn recent<T>(items: Seq<T>) -> Seq<T> {
    if items.len() <= 10 {
        items
    } else {
        items.skip(items.len() - 10)
    }
}

pub fn recent_events(events: &Vec<Event>) -> (last: Vec<Event>)
    ensures
        views::views(last@) == recent(views::views(events@)),
{
    let ghost all = views::views(events@);
    let start: usize = if events.len() <= 10 {
        0
    } else {
        events.len() - 10
    };
    let mut last: Vec<Event> = Vec::new();
    let mut index: usize = start;
    while index < events.len()
        invariant
            start <= index <= events@.len(),
            all == views::views(events@),
            views::views(last@) == all.subrange(start as int, index as int),
        decreases events@.len() - index,
    {
        let ghost before = last@;
        last.push(events[index].replica());
        assert(views::views(last@) =~= views::views(before).push(all[index as int]));
        assert(all.subrange(start as int, index + 1) =~= all.subrange(
            start as int,
            index as int,
        ).push(all[index as int]));
        index += 1;
    }
    assert(all.subrange(start as int, all.len() as int) =~= recent(all));
    last
}

// ---- the answer to a mutation ----

/// What a command answers: a document, a text to read, and in front of the text
/// a document to be shown at length.
#[derive(Debug)]
pub struct Output {
    pub json: Json,
    pub pretty: Option<Json>,
    pub human: String,
}

#[verifier::ext_equal]
pub struct OutputView {
    pub json: JsonView,
    pub pretty: Option<JsonView>,
    pub human: Seq<char>,
}

impl View for Output {
    type V = OutputView;

    open spec fn view(&self) -> OutputView {
        OutputView { json: self.json@, pretty: views::opt_view(self.pretty), human: self.human@ }
    }
}

pub open spec fn shown(json: JsonView, human: Seq<char>) -> OutputView {
    OutputView { json, pretty: None, human }
}

impl Output {
    pub fn new(json: Json, human: String) -> (output: Output)
        ensures
            output@ == shown(json@, human@),
    {
        Output { json, pretty: None, human }
    }
}

/// The keys that the envelope of a mutation has for itself.
pub open spec fn envelope_key(key: Seq<char>) -> bool {
    key == "schema"@ || key == "head"@ || key == "revision"@ || key == "event_id"@
}

/// The members that are left to the mutation.
pub open spec fn own_members(fields: JsonView) -> Seq<(Seq<char>, JsonView)> {
    match fields {
        JsonView::Object(members) => members.filter(
            |m: (Seq<char>, JsonView)| !envelope_key(m.0),
        ),
        _ => Seq::empty(),
    }
}

/// The document of a successful mutation: its own fields, and the envelope, which
/// no field can stand in for.
pub open spec fn mutation(
    head: HeadView,
    schema: Seq<char>,
    event_id: Seq<char>,
    fields: JsonView,
) -> JsonView {
    JsonView::Object(own_members(fields)).with("schema"@, JsonView::Text(schema)).with(
        "head"@,
        JsonView::Int(head.seq as int),
    ).with("revision"@, json::text_or_null(head.revision)).with(
        "event_id"@,
        JsonView::Text(event_id),
    )
}

fn is_envelope_key(key: &str) -> (is: bool)
    ensures
        is == envelope_key(key@),
{
    same_text(key, "schema") || same_text(key, "head") || same_text(key, "revision") || same_text(
        key,
        "event_id",
    )
}

pub fn mutation_document(head: &Head, schema: &str, event_id: &str, fields: &Json) -> (document:
    Json)
    ensures
        document@ == mutation(head@, schema@, event_id@, fields@),
{
    let mut kept: Vec<(String, Json)> = Vec::new();
    let ghost test = |m: (Seq<char>, JsonView)| !envelope_key(m.0);
    proof {
        reveal(Seq::filter);
    }
    if let Json::Object(members) = fields {
        let ghost all = fields@->Object_0;
        let mut index: usize = 0;
        assert(Json::Object(kept)@->Object_0 =~= all.take(0).filter(test));
        while index < members.len()
            invariant
                index <= members@.len(),
                *fields == Json::Object(*members),
                all == fields@->Object_0,
                all.len() == members@.len(),
                test == (|m: (Seq<char>, JsonView)| !envelope_key(m.0)),
                Json::Object(kept)@->Object_0 == all.take(index as int).filter(test),
            decreases members@.len() - index,
        {
            proof {
                reveal(Seq::filter);
                assert(all.take(index + 1).drop_last() =~= all.take(index as int));
                assert(all.take(index + 1).last() == (
                    members@[index as int].0@,
                    members@[index as int].1@,
                ));
            }
            if !is_envelope_key(members[index].0.as_str()) {
                let ghost before = Json::Object(kept)@->Object_0;
                kept.push((members[index].0.clone(), members[index].1.clone()));
                assert(Json::Object(kept)@->Object_0 =~= before.push(all[index as int]));
            }
            index += 1;
        }
        assert(all.take(index as int) =~= all);
    } else {
        assert(Json::Object(kept)@->Object_0 =~= Seq::<(Seq<char>, JsonView)>::empty());
    }
    let object = Json::Object(kept);
    assert(object@ == JsonView::Object(own_members(fields@)));
    object.with("schema", Json::text(schema)).with("head", Json::number(head.sequence())).with(
        "revision",
        Json::optional_text(&head.revision),
    ).with("event_id", Json::text(event_id))
}

proof fn own_members_leave_the_envelope(members: Seq<(Seq<char>, JsonView)>, key: Seq<char>)
    requires
        envelope_key(key),
    ensures
        json::first_member(
            members.filter(|m: (Seq<char>, JsonView)| !envelope_key(m.0)),
            key,
        ) is None,
    decreases members.len(),
{
    reveal(Seq::filter);
    let test = |m: (Seq<char>, JsonView)| !envelope_key(m.0);
    if members.len() > 0 {
        own_members_leave_the_envelope(members.drop_last(), key);
        let front = members.drop_last().filter(test);
        if test(members.last()) {
            let object = JsonView::Object(front);
            json::member_of_extended(object, members.last().0, members.last().1, key);
        }
    }
}

/// Whatever fields a mutation has, its document says under the envelope's keys
/// which schema it has, and what was appended where.
pub proof fn the_envelope_is_the_appends(
    head: HeadView,
    schema: Seq<char>,
    event_id: Seq<char>,
    fields: JsonView,
)
    ensures
        mutation(head, schema, event_id, fields).member("schema"@) == Some(JsonView::Text(schema)),
        mutation(head, schema, event_id, fields).member("head"@) == Some(
            JsonView::Int(head.seq as int),
        ),
        mutation(head, schema, event_id, fields).member("revision"@) == Some(
            json::text_or_null(head.revision),
        ),
        mutation(head, schema, event_id, fields).member("event_id"@) == Some(
            JsonView::Text(event_id),
        ),
{
    reveal_strlit("schema");
    assert("schema"@.len() == 6);
    reveal_strlit("head");
    assert("head"@.len() == 4);
    reveal_strlit("revision");
    assert("revision"@.len() == 8);
    reveal_strlit("event_id");
    assert("event_id"@.len() == 8);
    assert("revision"@[0] != "event_id"@[0]);
    let own = JsonView::Object(own_members(fields));
    assert forall|key: Seq<char>| envelope_key(key) implies #[trigger] own.member(key) is None by {
        match fields {
            JsonView::Object(members) => {
                own_members_leave_the_envelope(members, key);
            },
            _ => {},
        }
    }
    envelope_reading(own, head, schema, event_id, "schema"@);
    envelope_reading(own, head, schema, event_id, "head"@);
    envelope_reading(own, head, schema, event_id, "revision"@);
    envelope_reading(own, head, schema, event_id, "event_id"@);
}

proof fn envelope_reading(
    own: JsonView,
    head: HeadView,
    schema: Seq<char>,
    event_id: Seq<char>,
    key: Seq<char>,
)
    requires
        own is Object,
        own.member(key) is None,
    ensures
        own.with("schema"@, JsonView::Text(schema)).with(
            "head"@,
            JsonView::Int(head.seq as int),
        ).with("revision"@, json::text_or_null(head.revision)).with(
            "event_id"@,
            JsonView::Text(event_id),
        ).member(key) == (if key == "schema"@ {
            Some(JsonView::Text(schema))
        } else if key == "head"@ {
            Some(JsonView::Int(head.seq as int))
        } else if key == "revision"@ {
            Some(json::text_or_null(head.revision))
        } else if key == "event_id"@ {
            Some(JsonView::Text(event_id))
        } else {
            None
        }),
{
    let one = own.with("schema"@, JsonView::Text(schema));
    let two = one.with("head"@, JsonView::Int(head.seq as int));
    let three = two.with("revision"@, json::text_or_null(head.revision));
    json::member_of_extended(own, "schema"@, JsonView::Text(schema), key);
    json::member_of_extended(one, "head"@, JsonView::Int(head.seq as int), key);
    json::member_of_extended(two, "revision"@, json::text_or_null(head.revision), key);
    json::member_of_extended(three, "event_id"@, JsonView::Text(event_id), key);
}

// ---- questions ----

pub open spec fn stranded_text(s: StateView, question: QuestionView) -> Option<Seq<char>> {
    match rules::stranded_by(s, question) {
        Some(state) => Some("work "@ + state.name()),
        None => None,
    }
}

/// A question, and whether the end of its work has stranded it.
pub open spec fn question_document(s: StateView, question: QuestionView) -> JsonView {
    question_json(question).with("stranded"@, json::text_or_null(stranded_text(s, question)))
}

/// What strands a question is never stored: it is read off the work each time.
pub fn question_value(state: &ProjectState, question: &Question) -> (document: Json)
    ensures
        document@ == question_document(state@, question@),
{
    let stranded = match state.stranded(question) {
        Some(work_state) => Some(joined("work ", work_state.as_str())),
        None => None,
    };
    question.to_json().with("stranded", Json::optional_text(&stranded))
}

pub open spec fn question_documents(s: StateView, questions: Seq<QuestionView>) -> JsonView {
    JsonView::List(questions.map_values(|q: QuestionView| question_document(s, q)))
}

pub fn question_values(state: &ProjectState, questions: &Vec<Question>) -> (document: Json)
    ensures
        document@ == question_documents(state@, views::views(questions@)),
{
    let ghost told = views::views(questions@).map_values(
        |q: QuestionView| question_document(state@, q),
    );
    let mut items: Vec<Json> = Vec::new();
    let mut index: usize = 0;
    while index < questions.len()
        invariant
            index <= questions@.len(),
            items@.len() == index,
            told == views::views(questions@).map_values(
                |q: QuestionView| question_document(state@, q),
            ),
            forall|i: int| 0 <= i < index ==> (#[trigger] items@[i])@ == told[i],
        decreases questions@.len() - index,
    {
        items.push(question_value(state, &questions[index]));
        index += 1;
    }
    let document = Json::List(items);
    proof {
        assert forall|i: int| 0 <= i < told.len() implies document@->List_0[i] == told[i] by {
            assert(items@[i]@ == told[i]);
        }
        assert(document@->List_0 =~= told);
    }
    document
}

/// What a message about ended work adds about the questions that it strands.
pub open spec fn stranding_note(questions: Seq<Seq<char>>) -> Seq<char> {
    if questions.len() == 0 {
        Seq::empty()
    } else {
        " · also strands "@ + text::together(questions, ", "@)
    }
}

pub fn stranded_note(questions: &Vec<String>) -> (note: String)
    ensures
        note@ == stranding_note(views::views(questions@)),
{
    if questions.len() == 0 {
        String::new()
    } else {
        joined(" · also strands ", join_texts(questions, ", ").as_str())
    }
}

// ---- one object, with its history ----

/// Attempts at one work item.
pub struct AttemptsOf<'a> {
    pub work_id: &'a str,
}

pub open spec fn attempts_of(work_id: Seq<char>) -> spec_fn(AttemptView) -> bool {
    |a: AttemptView| a.work_id == work_id
}

impl<'a> Test<Attempt> for AttemptsOf<'a> {
    open spec fn test(&self) -> spec_fn(AttemptView) -> bool {
        attempts_of(self.work_id@)
    }

    fn passes(&self, item: &Attempt) -> (passes: bool) {
        same_text(item.work_id.as_str(), self.work_id)
    }
}

/// Questions about one work item.
pub struct QuestionsOf<'a> {
    pub work_id: &'a str,
}

pub open spec fn questions_of(work_id: Seq<char>) -> spec_fn(QuestionView) -> bool {
    |q: QuestionView| q.work_id == work_id
}

impl<'a> Test<Question> for QuestionsOf<'a> {
    open spec fn test(&self) -> spec_fn(QuestionView) -> bool {
        questions_of(self.work_id@)
    }

    fn passes(&self, item: &Question) -> (passes: bool) {
        same_text(item.work_id.as_str(), self.work_id)
    }
}

/// The name of the item itself.
pub struct ById;

pub open spec fn attempt_id() -> spec_fn(AttemptView) -> Seq<char> {
    |a: AttemptView| a.id
}

pub open spec fn question_id() -> spec_fn(QuestionView) -> Seq<char> {
    |q: QuestionView| q.id
}

impl Tell<Attempt> for ById {
    open spec fn line(&self) -> spec_fn(AttemptView) -> Seq<char> {
        attempt_id()
    }

    fn tell(&self, item: &Attempt) -> (line: String) {
        item.id.clone()
    }
}

impl Tell<Question> for ById {
    open spec fn line(&self) -> spec_fn(QuestionView) -> Seq<char> {
        question_id()
    }

    fn tell(&self, item: &Question) -> (line: String) {
        item.id.clone()
    }
}

/// The IDs whose events are the history of an object: of work, also its attempts
/// and questions.
pub open spec fn related(s: StateView, id: Seq<char>) -> Seq<Seq<char>> {
    if s.work.contains_key(id) {
        selection::values::<String, AttemptView>(s.attempts).filter(attempts_of(id)).map_values(
            attempt_id(),
        ) + selection::values::<String, QuestionView>(s.questions).filter(
            questions_of(id),
        ).map_values(question_id()) + seq![id]
    } else {
        seq![id]
    }
}

pub open spec fn names_one(payload: EventPayloadView, ids: Seq<Seq<char>>) -> bool {
    exists|i: int| 0 <= i < ids.len() && payload.names(#[trigger] ids[i])
}

pub open spec fn naming(ids: Seq<Seq<char>>) -> spec_fn(EventView) -> bool {
    |e: EventView| names_one(e.payload, ids)
}

/// Events that name one of the IDs.
pub struct Naming<'a> {
    pub ids: &'a Vec<String>,
}

impl<'a> Test<Event> for Naming<'a> {
    open spec fn test(&self) -> spec_fn(EventView) -> bool {
        naming(views::views(self.ids@))
    }

    fn passes(&self, item: &Event) -> (passes: bool) {
        let ghost all = views::views(self.ids@);
        let mut index: usize = 0;
        while index < self.ids.len()
            invariant
                index <= self.ids@.len(),
                all == views::views(self.ids@),
                forall|i: int| 0 <= i < index ==> !item@.payload.names(#[trigger] all[i]),
            decreases self.ids@.len() - index,
        {
            assert(all[index as int] == self.ids@[index as int]@);
            if item.payload.references(self.ids[index].as_str()) {
                assert(names_one(item@.payload, all));
                return true;
            }
            index += 1;
        }
        false
    }
}

/// What an object is, and its document.
pub open spec fn object_shown(s: StateView, id: Seq<char>) -> Option<(Seq<char>, JsonView)> {
    if s.work.contains_key(id) {
        Some(("work"@, work_json(s.work[id])))
    } else if s.attempts.contains_key(id) {
        Some(("attempt"@, attempt_json(s.attempts[id])))
    } else if s.questions.contains_key(id) {
        Some(("question"@, question_document(s, s.questions[id])))
    } else {
        None
    }
}

pub open spec fn history(s: StateView, events: Seq<EventView>, id: Seq<char>) -> Seq<EventView> {
    events.filter(naming(related(s, id)))
}

/// The document about one object; nothing of that name is an error.
pub open spec fn show_answer(
    s: StateView,
    events: Seq<EventView>,
    head: HeadView,
    id: Seq<char>,
) -> core::result::Result<JsonView, ErrorView> {
    match object_shown(s, id) {
        None => Err(error::not_found_error("object"@, id)),
        Some((kind, current)) => Ok(
            json::empty_object().with("current"@, current).with(
                "head"@,
                JsonView::Int(head.seq as int),
            ).with("history"@, summaries(history(s, events, id))).with("id"@, JsonView::Text(id)).with(
                "kind"@,
                JsonView::Text(kind),
            ).with("schema"@, JsonView::Text("alder.show.v0"@)),
        ),
    }
}

fn related_ids(state: &ProjectState, id: &str) -> (ids: Vec<String>)
    ensures
        views::views(ids@) == related(state@, id@),
{
    let mut ids: Vec<String> = Vec::new();
    assert(views::views(ids@) =~= Seq::<Seq<char>>::empty());
    if state.work.contains_key(id) {
        let attempts = values_of(&state.attempts);
        ids = lines_of(&chosen(&attempts, &AttemptsOf { work_id: id }), &ById);
        let ghost first = views::views(ids@);
        let questions = values_of(&state.questions);
        let mut more = lines_of(&chosen(&questions, &QuestionsOf { work_id: id }), &ById);
        let ghost second = views::views(more@);
        ids.append(&mut more);
        assert(views::views(ids@) =~= first + second);
    }
    let ghost before = views::views(ids@);
    ids.push(id.to_owned());
    assert(views::views(ids@) =~= before + seq![id@]);
    assert(Seq::<Seq<char>>::empty() + seq![id@] =~= seq![id@]);
    ids
}

/// An object's current document, and the events that are its history.
pub fn object_and_history(state: &ProjectState, events: &Vec<Event>, id: &str) -> (outcome: Result<
    (&'static str, Json, Vec<Event>),
>)
    ensures
        match object_shown(state@, id@) {
            Some((kind, current)) => outcome matches Ok((k, c, h)) && k@ == kind && c@ == current
                && views::views(h@) == history(state@, views::views(events@), id@),
            None => outcome matches Err(e) && e@ == error::not_found_error("object"@, id@),
        },
{
    let (kind, current): (&'static str, Json) = if let Some(work) = state.work.get(id) {
        ("work", work.to_json())
    } else if let Some(attempt) = state.attempts.get(id) {
        ("attempt", attempt.to_json())
    } else if let Some(question) = state.questions.get(id) {
        ("question", question_value(state, question))
    } else {
        return Err(AlderError::not_found("object", id));
    };
    let ids = related_ids(state, id);
    let past = chosen(events, &Naming { ids: &ids });
    Ok((kind, current, past))
}

pub fn show_document(state: &ProjectState, events: &Vec<Event>, head: &Head, id: &str) -> (outcome:
    Result<Json>)
    ensures
        match show_answer(state@, views::views(events@), head@, id@) {
            Ok(document) => outcome matches Ok(d) && d@ == document,
            Err(error) => outcome matches Err(e) && e@ == error,
        },
{
    match object_and_history(state, events, id) {
        Err(error) => Err(error),
        Ok((kind, current, past)) => Ok(
            Json::object().with("current", current).with("head", Json::number(head.sequence())).with(
                "history",
                event_summaries(&past),
            ).with("id", Json::text(id)).with("kind", Json::text(kind)).with(
                "schema",
                Json::text("alder.show.v0"),
            ),
        ),
    }
}

// ---- the loop ----

impl Replica for Instant {
    fn replica(&self) -> (copy: Instant) {
        *self
    }
}

impl Ranked for Instant {
    open spec fn ahead(a: Instant, b: Instant) -> bool {
        a.earlier(b)
    }

    fn is_ahead(&self, other: &Instant) -> (ahead: bool) {
        self.is_before(*other)
    }
}

/// When the blocked ones among the items are to be reviewed.
pub open spec fn deadlines_among(items: Seq<WorkView>) -> Seq<Instant>
    decreases items.len(),
{
    if items.len() == 0 {
        Seq::empty()
    } else {
        let front = deadlines_among(items.drop_last());
        if items.last().state is Blocked && items.last().block_until is Some {
            front.push(items.last().block_until->0)
        } else {
            front
        }
    }
}

/// The review times of all blocked work, the earliest first.
pub open spec fn review_deadlines(s: StateView) -> Seq<Instant> {
    sorting::sorted::<Instant>(deadlines_among(selection::values::<String, WorkView>(s.work)))
}

pub fn deadlines(state: &ProjectState) -> (times: Vec<Instant>)
    ensures
        views::views(times@) == review_deadlines(state@),
{
    let items = values_of(&state.work);
    let ghost all = views::views(items@);
    let mut times: Vec<Instant> = Vec::new();
    let mut index: usize = 0;
    assert(views::views(times@) =~= deadlines_among(all.take(0)));
    while index < items.len()
        invariant
            index <= items@.len(),
            all == views::views(items@),
            views::views(times@) == deadlines_among(all.take(index as int)),
        decreases items@.len() - index,
    {
        assert(all.take(index + 1).drop_last() =~= all.take(index as int));
        let work = &items[index];
        assert(all.take(index + 1).last() == work@);
        if work.state == crate::work::WorkState::Blocked {
            if let Some(until) = work.block_until {
                let ghost before = times@;
                times.push(until);
                assert(views::views(times@) =~= views::views(before).push(until));
            }
        }
        index += 1;
    }
    assert(all.take(index as int) =~= all);
    sort(times)
}

/// The earliest of the review times.
pub open spec fn first_review(s: StateView) -> Option<Instant> {
    if review_deadlines(s).len() == 0 {
        None
    } else {
        Some(review_deadlines(s)[0])
    }
}

/// What the log wants of the loop. It is all that a driver reads, besides the head.
pub open spec fn loop_document(s: StateView) -> JsonView {
    json::empty_object().with("engine"@, json::text_or_null(s.loop_control.engine)).with(
        "nudge_requested_seq"@,
        json::int_or_null(s.loop_control.nudge_requested_seq),
    ).with("pause_reason"@, json::text_or_null(s.loop_control.pause_reason)).with(
        "paused"@,
        JsonView::Bool(s.loop_control.paused),
    ).with("review_at"@, wire::opt_json::<Instant>(first_review(s))).with(
        "review_deadlines"@,
        wire::list_json::<Instant>(review_deadlines(s)),
    ).with("rotate_requested_seq"@, json::int_or_null(s.loop_control.rotate_requested_seq))
}

pub fn loop_section(state: &ProjectState) -> (document: Json)
    ensures
        document@ == loop_document(state@),
{
    let times = deadlines(state);
    assert(views::views(times@).len() == times@.len());
    let first = if times.len() == 0 {
        None
    } else {
        assert(views::views(times@)[0] == times@[0]);
        Some(times[0])
    };
    let control = &state.loop_control;
    Json::object().with("engine", Json::optional_text(&control.engine)).with(
        "nudge_requested_seq",
        Json::optional_number(control.nudge_requested_seq),
    ).with("pause_reason", Json::optional_text(&control.pause_reason)).with(
        "paused",
        Json::Bool(control.paused),
    ).with("review_at", opt_to_json(&first)).with("review_deadlines", list_to_json(&times)).with(
        "rotate_requested_seq",
        Json::optional_number(control.rotate_requested_seq),
    )
}

/// What is wanted of the loop: a pause, and the reason for it, and an engine.
pub open spec fn desired(s: StateView) -> Seq<Seq<char>> {
    let pause = if s.loop_control.paused {
        match s.loop_control.pause_reason {
            Some(reason) => seq!["paused · "@ + reason],
            None => seq!["paused"@],
        }
    } else {
        Seq::empty()
    };
    match s.loop_control.engine {
        Some(engine) => pause.push("engine "@ + engine),
        None => pause,
    }
}

pub open spec fn loop_told(s: StateView) -> Seq<Seq<char>> {
    let wanted = if desired(s).len() == 0 {
        Seq::empty()
    } else {
        seq![text::together(desired(s), " · "@)]
    };
    match first_review(s) {
        Some(at) => wanted.push("next review "@ + at.shown()),
        None => wanted,
    }
}

pub fn loop_lines(state: &ProjectState) -> (lines: Vec<String>)
    ensures
        views::views(lines@) == loop_told(state@),
{
    let control = &state.loop_control;
    let mut wanted: Vec<String> = Vec::new();
    assert(views::views(wanted@) =~= Seq::<Seq<char>>::empty());
    if control.paused {
        match &control.pause_reason {
            Some(reason) => {
                wanted.push(joined("paused · ", reason.as_str()));
            },
            None => {
                wanted.push("paused".to_owned());
            },
        }
    }
    if let Some(engine) = &control.engine {
        wanted.push(joined("engine ", engine.as_str()));
    }
    assert(views::views(wanted@) =~= desired(state@));
    let mut lines: Vec<String> = Vec::new();
    if wanted.len() > 0 {
        lines.push(join_texts(&wanted, " · "));
    }
    let times = deadlines(state);
    assert(views::views(times@).len() == times@.len());
    if times.len() > 0 {
        assert(views::views(times@)[0] == times@[0]);
        lines.push(joined("next review ", times[0].to_rfc3339().as_str()));
    }
    assert(views::views(lines@) =~= loop_told(state@));
    lines
}

/// The earliest review time is the one that the project names.
pub proof fn the_first_deadline_is_the_next_review(s: StateView, at: Instant)
    requires
        s.work.dom().finite(),
    ensures
        first_review(s) == Some(at) ==> rules::review_at(s, at) && forall|u: Instant|
            rules::review_at(s, u) ==> !u.earlier(at),
        first_review(s) is None ==> forall|u: Instant| !rules::review_at(s, u),
{
    let items = selection::values::<String, WorkView>(s.work);
    let keys = catalog::listing::<String>(s.work.dom());
    catalog::listing_exists::<String>(s.work.dom());
    sorting::sorted_is_ordered_permutation::<Instant>(deadlines_among(items));
    deadlines_are_reviews(items);
    let found = deadlines_among(items);
    let ordered = review_deadlines(s);
    assert(ordered.to_multiset() == found.to_multiset());
    broadcast use vstd::seq_lib::group_to_multiset_ensures;

    assert(ordered.len() == found.len()) by {
        assert(ordered.to_multiset().len() == ordered.len());
        assert(found.to_multiset().len() == found.len());
    }
    assert forall|u: Instant| rules::review_at(s, u) implies found.contains(u) by {
        let id = choose|id: Seq<char>|
            s.work.contains_key(id) && (#[trigger] s.work[id]).state is Blocked
                && s.work[id].block_until == Some(u);
        assert(keys.to_set().contains(id));
        let i = choose|i: int| 0 <= i < keys.len() && keys[i] == id;
        assert(items[i] == s.work[id]);
        assert(due(items, u));
    }
    assert forall|u: Instant| found.contains(u) implies rules::review_at(s, u) by {
        assert(due(items, u));
        let i = choose|i: int|
            0 <= i < items.len() && (#[trigger] items[i]).state is Blocked && items[i].block_until
                == Some(u);
        assert(keys.to_set().contains(keys[i]));
        assert(s.work[keys[i]].block_until == Some(u));
    }
    assert forall|u: Instant| found.contains(u) implies ordered.contains(u) by {
        assert(found.to_multiset().count(u) > 0);
        assert(ordered.to_multiset().count(u) > 0);
    }
    if ordered.len() > 0 {
        let first = ordered[0];
        assert(ordered.contains(first));
        assert(ordered.to_multiset().count(first) > 0);
        assert(found.contains(first));
        assert forall|u: Instant| rules::review_at(s, u) implies !u.earlier(first) by {
            assert(ordered.contains(u));
            let j = choose|j: int| 0 <= j < ordered.len() && ordered[j] == u;
            if j > 0 {
                assert(!<Instant as Ranked>::ahead(ordered[j], ordered[0]));
            }
        }
    } else {
        assert forall|u: Instant| !rules::review_at(s, u) by {
            if rules::review_at(s, u) {
                assert(found.contains(u));
            }
        }
    }
}

/// Whether one of the items is blocked until then.
pub open spec fn due(items: Seq<WorkView>, at: Instant) -> bool {
    exists|i: int|
        0 <= i < items.len() && (#[trigger] items[i]).state is Blocked && items[i].block_until
            == Some(at)
}

pub(crate) proof fn deadlines_are_reviews(items: Seq<WorkView>)
    ensures
        forall|at: Instant| #[trigger] deadlines_among(items).contains(at) <==> due(items, at),
    decreases items.len(),
{
    if items.len() > 0 {
        deadlines_are_reviews(items.drop_last());
        let front = deadlines_among(items.drop_last());
        let whole = deadlines_among(items);
        assert forall|at: Instant| #[trigger] whole.contains(at) <==> due(items, at) by {
            if whole.contains(at) {
                let i = choose|i: int| 0 <= i < whole.len() && whole[i] == at;
                if i < front.len() {
                    assert(front[i] == at);
                    assert(front.contains(at));
                    let j = choose|j: int|
                        0 <= j < items.drop_last().len() && (#[trigger] items.drop_last()[j]).state is Blocked
                            && items.drop_last()[j].block_until == Some(at);
                    assert(items[j] == items.drop_last()[j]);
                } else {
                    assert(items[items.len() - 1].block_until == Some(at));
                }
            }
            if due(items, at) {
                let j = choose|j: int|
                    0 <= j < items.len() && (#[trigger] items[j]).state is Blocked
                        && items[j].block_until == Some(at);
                if j < items.len() - 1 {
                    assert(items.drop_last()[j] == items[j]);
                    assert(due(items.drop_last(), at));
                    assert(front.contains(at));
                    let i = choose|i: int| 0 <= i < front.len() && front[i] == at;
                    assert(whole[i] == at);
                } else {
                    assert(whole.last() == at);
                }
            }
        }
    }
}

} // verus!

//! What the documents about records, events and the loop say, member by member.

use vstd::prelude::*;

use crate::attempt::{AttemptCheckView, AttemptView};
use crate::change_laws;
use crate::documents;
use crate::documents::FindingView;
use crate::effect_laws;
use crate::event::{EventPayloadView, EventView, WorkEventPayloadView};
use crate::instant::Instant;
use crate::json;
use crate::json::JsonView;
use crate::laws;
use crate::observation::{ObservationKey, ObservationKeyView, ObservationView};
use crate::project::StateView;
use crate::projection_laws;
use crate::projection_laws::{
    attempt_word, check_word, has_value, outcome_word, state_word,
};
use crate::question::{QuestionAnswerView, QuestionView};
use crate::rules;
use crate::selection;
use crate::sorting;
use crate::status_laws;
use crate::store::HeadView;
use crate::work::{CheckDefinitionView, WorkView};

verus! {

// ---- what a member says ----

/// A text, or nothing where there is none.
pub open spec fn says_text(document: JsonView, key: Seq<char>, value: Option<Seq<char>>) -> bool {
    &&& value is Some ==> document.member(key) == Some(JsonView::Text(value->0))
    &&& value is None ==> document.member(key) == Some(JsonView::Null)
}

/// A number, or nothing where there is none.
pub open spec fn says_number(document: JsonView, key: Seq<char>, value: Option<u64>) -> bool {
    &&& value is Some ==> document.member(key) == Some(JsonView::Int(value->0 as int))
    &&& value is None ==> document.member(key) == Some(JsonView::Null)
}

/// A moment of the calendar as its text.
pub open spec fn says_time(document: JsonView, key: Seq<char>, at: Instant) -> bool {
    at.wire() is Some ==> document.member(key) == Some(JsonView::Text(at.wire()->0))
}

/// A list of texts.
pub open spec fn says_texts(document: JsonView, key: Seq<char>, values: Seq<Seq<char>>) -> bool {
    &&& document.member(key) is Some
    &&& document.member(key)->0 is List
    &&& document.member(key)->0->List_0.len() == values.len()
    &&& forall|i: int|
        0 <= i < values.len() ==> #[trigger] document.member(key)->0->List_0[i] == JsonView::Text(
            values[i],
        )
}

/// A list with a document for each of the items.
pub open spec fn says_each<T>(
    document: JsonView,
    key: Seq<char>,
    items: Seq<T>,
    says: spec_fn(JsonView, T) -> bool,
) -> bool {
    &&& document.member(key) is Some
    &&& document.member(key)->0 is List
    &&& document.member(key)->0->List_0.len() == items.len()
    &&& forall|i: int|
        0 <= i < items.len() ==> says(#[trigger] document.member(key)->0->List_0[i], items[i])
}

pub(crate) proof fn found_first(members: Seq<(Seq<char>, JsonView)>, i: int, key: Seq<char>)
    requires
        0 <= i < members.len(),
        members[i].0 == key,
        forall|j: int| 0 <= j < i ==> (#[trigger] members[j]).0 != key,
    ensures
        json::first_member(members, key) == Some(members[i].1),
    decreases i,
{
    if i > 0 {
        let rest = members.drop_first();
        assert(members[0].0 != key);
        assert forall|j: int| 0 <= j < i - 1 implies (#[trigger] rest[j]).0 != key by {
            assert(rest[j] == members[j + 1]);
        }
        found_first(rest, i - 1, key);
    }
}

// ---- records ----

/// A check of a work item: its key and what it asks for.
pub open spec fn says_check(document: JsonView, check: CheckDefinitionView) -> bool {
    &&& document.member("key"@) == Some(JsonView::Text(check.key))
    &&& document.member("description"@) == Some(JsonView::Text(check.description))
}

/// The document of a check tells all of it.
pub proof fn check_documents_tell_the_checks(check: CheckDefinitionView)
    ensures
        says_check(<crate::work::CheckDefinition as crate::wire::ToJson>::json(check), check),
{
    let document = <crate::work::CheckDefinition as crate::wire::ToJson>::json(check);
    let members = document->Object_0;
    reveal_strlit("key");
    assert("key"@.len() == 3);
    reveal_strlit("description");
    assert("description"@.len() == 11);
    found_first(members, 0, "key"@);
    found_first(members, 1, "description"@);
}

/// A work item, with every field under its name.
pub open spec fn says_work(document: JsonView, work: WorkView) -> bool {
    &&& document.member("id"@) == Some(JsonView::Text(work.id))
    &&& document.member("title"@) == Some(JsonView::Text(work.title))
    &&& says_text(document, "spec"@, work.spec)
    &&& document.member("priority"@) == Some(JsonView::Int(work.priority as int))
    &&& document.member("state"@) == Some(JsonView::Text(state_word(work.state)))
    &&& says_text(document, "block_reason"@, work.block_reason)
    &&& work.block_until is Some ==> says_time(document, "block_until"@, work.block_until->0)
    &&& work.block_until is None ==> document.member("block_until"@) == Some(JsonView::Null)
    &&& says_text(document, "outcome"@, work.outcome)
    &&& document.member("opened_seq"@) == Some(JsonView::Int(work.opened_seq as int))
    &&& document.member("changed_seq"@) == Some(JsonView::Int(work.changed_seq as int))
    &&& says_texts(document, "requires"@, work.requires)
    &&& says_each(
        document,
        "checks"@,
        work.checks,
        |told: JsonView, check: CheckDefinitionView| says_check(told, check),
    )
}

/// The document of a work item tells all of it.
pub proof fn work_documents_tell_the_work(work: WorkView)
    ensures
        says_work(documents::work_json(work), work),
{
    let document = documents::work_json(work);
    let members = document->Object_0;
    reveal_strlit("block_reason");
    assert("block_reason"@.len() == 12);
    reveal_strlit("block_until");
    assert("block_until"@.len() == 11);
    reveal_strlit("changed_seq");
    assert("changed_seq"@.len() == 11);
    reveal_strlit("checks");
    assert("checks"@.len() == 6);
    reveal_strlit("id");
    assert("id"@.len() == 2);
    reveal_strlit("opened_seq");
    assert("opened_seq"@.len() == 10);
    reveal_strlit("outcome");
    assert("outcome"@.len() == 7);
    reveal_strlit("priority");
    assert("priority"@.len() == 8);
    reveal_strlit("requires");
    assert("requires"@.len() == 8);
    reveal_strlit("spec");
    assert("spec"@.len() == 4);
    reveal_strlit("state");
    assert("state"@.len() == 5);
    reveal_strlit("title");
    assert("title"@.len() == 5);
    assert("block_until"@[0] != "changed_seq"@[0]);
    assert("priority"@[0] != "requires"@[0]);
    assert("state"@[0] != "title"@[0]);
    assert forall|check: CheckDefinitionView| says_check(
        #[trigger] <crate::work::CheckDefinition as crate::wire::ToJson>::json(check),
        check,
    ) by {
        check_documents_tell_the_checks(check);
    }
    found_first(members, 0, "block_reason"@);
    found_first(members, 1, "block_until"@);
    found_first(members, 2, "changed_seq"@);
    found_first(members, 3, "checks"@);
    found_first(members, 4, "id"@);
    found_first(members, 5, "opened_seq"@);
    found_first(members, 6, "outcome"@);
    found_first(members, 7, "priority"@);
    found_first(members, 8, "requires"@);
    found_first(members, 9, "spec"@);
    found_first(members, 10, "state"@);
    found_first(members, 11, "title"@);
}

/// What became of a check in an attempt.
pub open spec fn says_verdict(document: JsonView, check: AttemptCheckView) -> bool {
    &&& document.member("key"@) == Some(JsonView::Text(check.key))
    &&& document.member("status"@) == Some(JsonView::Text(check_word(check.status)))
    &&& says_text(document, "evidence"@, check.evidence)
    &&& says_number(document, "updated_seq"@, check.updated_seq)
}

/// The document of a check in an attempt tells all of it.
pub proof fn verdict_documents_tell_the_verdicts(check: AttemptCheckView)
    ensures
        says_verdict(documents::attempt_check_json(check), check),
{
    let document = documents::attempt_check_json(check);
    let members = document->Object_0;
    reveal_strlit("evidence");
    assert("evidence"@.len() == 8);
    reveal_strlit("key");
    assert("key"@.len() == 3);
    reveal_strlit("status");
    assert("status"@.len() == 6);
    reveal_strlit("updated_seq");
    assert("updated_seq"@.len() == 11);
    found_first(members, 0, "evidence"@);
    found_first(members, 1, "key"@);
    found_first(members, 2, "status"@);
    found_first(members, 3, "updated_seq"@);
}

/// An attempt, with every field under its name.
pub open spec fn says_attempt(document: JsonView, attempt: AttemptView) -> bool {
    &&& document.member("id"@) == Some(JsonView::Text(attempt.id))
    &&& document.member("work_id"@) == Some(JsonView::Text(attempt.work_id))
    &&& document.member("state"@) == Some(JsonView::Text(attempt_word(attempt.state)))
    &&& attempt.outcome is Some ==> document.member("outcome"@) == Some(
        JsonView::Text(outcome_word(attempt.outcome->0)),
    )
    &&& attempt.outcome is None ==> document.member("outcome"@) == Some(JsonView::Null)
    &&& says_text(document, "tier"@, attempt.tier)
    &&& says_text(document, "handle"@, attempt.handle)
    &&& says_text(document, "note"@, attempt.note)
    &&& document.member("started_seq"@) == Some(JsonView::Int(attempt.started_seq as int))
    &&& says_number(document, "bound_seq"@, attempt.bound_seq)
    &&& document.member("updated_seq"@) == Some(JsonView::Int(attempt.updated_seq as int))
    &&& says_number(document, "ended_seq"@, attempt.ended_seq)
    &&& document.member("metadata"@) is Some && projection_laws::has_members(
        document.member("metadata"@)->0,
        attempt.metadata,
    )
    &&& document.member("checks"@) is Some && document.member("checks"@)->0 is Object
    &&& forall|key: Seq<char>| #![trigger attempt.checks.contains_key(key)]
        if attempt.checks.contains_key(key) {
            &&& document.member("checks"@)->0.member(key) is Some
            &&& says_verdict(document.member("checks"@)->0.member(key)->0, attempt.checks[key])
        } else {
            document.member("checks"@)->0.member(key) is None
        }
}

/// The document of an attempt tells all of it.
pub proof fn attempt_documents_tell_the_attempts(attempt: AttemptView)
    requires
        attempt.metadata.dom().finite(),
        attempt.checks.dom().finite(),
    ensures
        says_attempt(documents::attempt_json(attempt), attempt),
{
    let document = documents::attempt_json(attempt);
    let members = document->Object_0;
    reveal_strlit("bound_seq");
    assert("bound_seq"@.len() == 9);
    reveal_strlit("checks");
    assert("checks"@.len() == 6);
    reveal_strlit("ended_seq");
    assert("ended_seq"@.len() == 9);
    reveal_strlit("handle");
    assert("handle"@.len() == 6);
    reveal_strlit("id");
    assert("id"@.len() == 2);
    reveal_strlit("metadata");
    assert("metadata"@.len() == 8);
    reveal_strlit("note");
    assert("note"@.len() == 4);
    reveal_strlit("outcome");
    assert("outcome"@.len() == 7);
    reveal_strlit("started_seq");
    assert("started_seq"@.len() == 11);
    reveal_strlit("state");
    assert("state"@.len() == 5);
    reveal_strlit("tier");
    assert("tier"@.len() == 4);
    reveal_strlit("updated_seq");
    assert("updated_seq"@.len() == 11);
    reveal_strlit("work_id");
    assert("work_id"@.len() == 7);
    assert("bound_seq"@[0] != "ended_seq"@[0]);
    assert("checks"@[0] != "handle"@[0]);
    assert("note"@[0] != "tier"@[0]);
    assert("outcome"@[0] != "work_id"@[0]);
    assert("started_seq"@[0] != "updated_seq"@[0]);
    projection_laws::maps_have_members::<crate::json::Json>(attempt.metadata);
    projection_laws::maps_have_members::<crate::attempt::AttemptCheck>(attempt.checks);
    assert forall|check: AttemptCheckView| says_verdict(
        #[trigger] documents::attempt_check_json(check),
        check,
    ) by {
        verdict_documents_tell_the_verdicts(check);
    }
    found_first(members, 0, "bound_seq"@);
    found_first(members, 1, "checks"@);
    found_first(members, 2, "ended_seq"@);
    found_first(members, 3, "handle"@);
    found_first(members, 4, "id"@);
    found_first(members, 5, "metadata"@);
    found_first(members, 6, "note"@);
    found_first(members, 7, "outcome"@);
    found_first(members, 8, "started_seq"@);
    found_first(members, 9, "state"@);
    found_first(members, 10, "tier"@);
    found_first(members, 11, "updated_seq"@);
    found_first(members, 12, "work_id"@);
}

/// An answer: what it says, who gave it and where it stands in the log.
pub open spec fn says_answer(document: JsonView, answer: QuestionAnswerView) -> bool {
    &&& document.member("actor"@) == Some(JsonView::Text(answer.actor))
    &&& document.member("answer"@) == Some(JsonView::Text(answer.answer))
    &&& document.member("seq"@) == Some(JsonView::Int(answer.seq as int))
}

/// The document of an answer tells all of it.
pub proof fn answer_documents_tell_the_answers(answer: QuestionAnswerView)
    ensures
        says_answer(documents::answer_json(answer), answer),
{
    let document = documents::answer_json(answer);
    let members = document->Object_0;
    reveal_strlit("actor");
    assert("actor"@.len() == 5);
    reveal_strlit("answer");
    assert("answer"@.len() == 6);
    reveal_strlit("seq");
    assert("seq"@.len() == 3);
    found_first(members, 0, "actor"@);
    found_first(members, 1, "answer"@);
    found_first(members, 2, "seq"@);
}

/// A question, with every field under its name.
pub open spec fn says_question(document: JsonView, question: QuestionView) -> bool {
    &&& document.member("id"@) == Some(JsonView::Text(question.id))
    &&& document.member("work_id"@) == Some(JsonView::Text(question.work_id))
    &&& document.member("text"@) == Some(JsonView::Text(question.text))
    &&& says_text(document, "answer"@, question.answer)
    &&& says_text(document, "answered_by"@, question.answered_by)
    &&& says_number(document, "answered_seq"@, question.answered_seq)
    &&& document.member("asked_seq"@) == Some(JsonView::Int(question.asked_seq as int))
    &&& says_each(
        document,
        "answers"@,
        question.answers,
        |told: JsonView, answer: QuestionAnswerView| says_answer(told, answer),
    )
}

/// The document of a question tells all of it.
pub proof fn question_documents_tell_the_questions(question: QuestionView)
    ensures
        says_question(documents::question_json(question), question),
{
    let document = documents::question_json(question);
    let members = document->Object_0;
    reveal_strlit("answer");
    assert("answer"@.len() == 6);
    reveal_strlit("answered_by");
    assert("answered_by"@.len() == 11);
    reveal_strlit("answered_seq");
    assert("answered_seq"@.len() == 12);
    reveal_strlit("answers");
    assert("answers"@.len() == 7);
    reveal_strlit("asked_seq");
    assert("asked_seq"@.len() == 9);
    reveal_strlit("id");
    assert("id"@.len() == 2);
    reveal_strlit("text");
    assert("text"@.len() == 4);
    reveal_strlit("work_id");
    assert("work_id"@.len() == 7);
    assert("answers"@[0] != "work_id"@[0]);
    assert forall|answer: QuestionAnswerView| says_answer(
        #[trigger] documents::answer_json(answer),
        answer,
    ) by {
        answer_documents_tell_the_answers(answer);
    }
    found_first(members, 0, "answer"@);
    found_first(members, 1, "answered_by"@);
    found_first(members, 2, "answered_seq"@);
    found_first(members, 3, "answers"@);
    found_first(members, 4, "asked_seq"@);
    found_first(members, 5, "id"@);
    found_first(members, 6, "text"@);
    found_first(members, 7, "work_id"@);
}

/// An observation: what it is of, who reported which level, and when.
pub open spec fn says_observation(document: JsonView, observation: ObservationView) -> bool {
    &&& document.member("observer"@) == Some(JsonView::Text(observation.key.observer))
    &&& document.member("subject"@) == Some(JsonView::Text(observation.key.subject))
    &&& document.member("field"@) == Some(JsonView::Text(observation.key.field))
    &&& document.member("level"@) == Some(JsonView::Text(observation.level))
    &&& document.member("reported_seq"@) == Some(JsonView::Int(observation.reported_seq as int))
}

/// The document of an observation tells all of it.
pub proof fn observation_documents_tell_the_observations(observation: ObservationView)
    ensures
        says_observation(documents::observation_json(observation), observation),
{
    let document = documents::observation_json(observation);
    let members = document->Object_0;
    reveal_strlit("field");
    assert("field"@.len() == 5);
    reveal_strlit("level");
    assert("level"@.len() == 5);
    reveal_strlit("observer");
    assert("observer"@.len() == 8);
    reveal_strlit("reported_seq");
    assert("reported_seq"@.len() == 12);
    reveal_strlit("subject");
    assert("subject"@.len() == 7);
    assert("field"@[0] != "level"@[0]);
    found_first(members, 0, "field"@);
    found_first(members, 1, "level"@);
    found_first(members, 2, "observer"@);
    found_first(members, 3, "reported_seq"@);
    found_first(members, 4, "subject"@);
}

/// A finding, with every field under its name.
pub open spec fn says_finding(document: JsonView, finding: FindingView) -> bool {
    &&& document.member("kind"@) == Some(JsonView::Text(finding.kind))
    &&& says_text(document, "attempt_id"@, finding.attempt_id)
    &&& says_text(document, "handle"@, finding.handle)
    &&& document.member("status"@) == Some(JsonView::Text(finding.status))
    &&& document.member("detail"@) == Some(JsonView::Text(finding.detail))
    &&& says_text(document, "suggested_command"@, finding.suggested_command)
    &&& document.member("metadata"@) == Some(finding.metadata)
}

/// The document of a finding tells all of it.
pub proof fn finding_documents_tell_the_findings(finding: FindingView)
    ensures
        says_finding(documents::finding_json(finding), finding),
{
    let document = documents::finding_json(finding);
    let members = document->Object_0;
    reveal_strlit("attempt_id");
    assert("attempt_id"@.len() == 10);
    reveal_strlit("detail");
    assert("detail"@.len() == 6);
    reveal_strlit("handle");
    assert("handle"@.len() == 6);
    reveal_strlit("kind");
    assert("kind"@.len() == 4);
    reveal_strlit("metadata");
    assert("metadata"@.len() == 8);
    reveal_strlit("status");
    assert("status"@.len() == 6);
    reveal_strlit("suggested_command");
    assert("suggested_command"@.len() == 17);
    assert("detail"@[0] != "handle"@[0]);
    assert("detail"@[0] != "status"@[0]);
    assert("handle"@[0] != "status"@[0]);
    found_first(members, 0, "attempt_id"@);
    found_first(members, 1, "detail"@);
    found_first(members, 2, "handle"@);
    found_first(members, 3, "kind"@);
    found_first(members, 4, "metadata"@);
    found_first(members, 5, "status"@);
    found_first(members, 6, "suggested_command"@);
}

/// An event in short: who stated what kind of thing when, and where it stands.
pub open spec fn says_summary(document: JsonView, event: EventView) -> bool {
    &&& document.member("actor"@) == Some(JsonView::Text(event.actor))
    &&& document.member("id"@) == Some(JsonView::Text(event.id))
    &&& document.member("seq"@) == Some(JsonView::Int(event.seq as int))
    &&& document.member("type"@) == Some(JsonView::Text(event.payload.event_type()))
    &&& says_time(document, "at"@, event.at)
}

/// The summary of an event tells which one it is.
pub proof fn summaries_tell_the_events(event: EventView)
    ensures
        says_summary(documents::summary(event), event),
{
    let document = documents::summary(event);
    let members = document->Object_0;
    reveal_strlit("actor");
    assert("actor"@.len() == 5);
    reveal_strlit("at");
    assert("at"@.len() == 2);
    reveal_strlit("id");
    assert("id"@.len() == 2);
    reveal_strlit("seq");
    assert("seq"@.len() == 3);
    reveal_strlit("type");
    assert("type"@.len() == 4);
    assert("at"@[0] != "id"@[0]);
    found_first(members, 0, "actor"@);
    found_first(members, 1, "at"@);
    found_first(members, 2, "id"@);
    found_first(members, 3, "seq"@);
    found_first(members, 4, "type"@);
}

/// An event in full.
pub open spec fn says_event(document: JsonView, event: EventView) -> bool {
    &&& document.member("actor"@) == Some(JsonView::Text(event.actor))
    &&& document.member("id"@) == Some(JsonView::Text(event.id))
    &&& document.member("seq"@) == Some(JsonView::Int(event.seq as int))
    &&& document.member("schema"@) == Some(JsonView::Text(event.schema))
    &&& document.member("type"@) == Some(JsonView::Text(event.payload.event_type()))
    &&& says_time(document, "at"@, event.at)
    &&& document.member("body"@) == Some(event.payload.body())
}

/// The document of an event tells all of it.
pub proof fn event_documents_tell_the_events(event: EventView)
    ensures
        says_event(documents::event_json(event), event),
{
    let document = documents::event_json(event);
    let members = document->Object_0;
    reveal_strlit("actor");
    assert("actor"@.len() == 5);
    reveal_strlit("at");
    assert("at"@.len() == 2);
    reveal_strlit("body");
    assert("body"@.len() == 4);
    reveal_strlit("id");
    assert("id"@.len() == 2);
    reveal_strlit("schema");
    assert("schema"@.len() == 6);
    reveal_strlit("seq");
    assert("seq"@.len() == 3);
    reveal_strlit("type");
    assert("type"@.len() == 4);
    assert("at"@[0] != "id"@[0]);
    assert("body"@[0] != "type"@[0]);
    found_first(members, 0, "actor"@);
    found_first(members, 1, "at"@);
    found_first(members, 2, "body"@);
    found_first(members, 3, "id"@);
    found_first(members, 4, "schema"@);
    found_first(members, 5, "seq"@);
    found_first(members, 6, "type"@);
}

// ---- documents with a document in them ----

/// What strands a question is told with it: the state of work that is done or dropped.
pub proof fn question_documents_tell_what_strands_them(s: StateView, question: QuestionView)
    ensures
        ({
            let document = documents::question_document(s, question);
            &&& says_question(document, question)
            &&& if s.work.contains_key(question.work_id) && effect_laws::closed(
                s.work[question.work_id],
            ) {
                document.member("stranded"@) == Some(
                    JsonView::Text("work "@ + state_word(s.work[question.work_id].state)),
                )
            } else {
                document.member("stranded"@) == Some(JsonView::Null)
            }
        }),
{
    question_documents_tell_the_questions(question);
    let document = documents::question_document(s, question);
    let plain = documents::question_json(question);
    let value = json::text_or_null(documents::stranded_text(s, question));
    assert forall|key: Seq<char>| #[trigger] plain.member(key) is Some implies document.member(key)
        == plain.member(key) by {
        json::member_of_extended(plain, "stranded"@, value, key);
    }
    let members = document->Object_0;
    reveal_strlit("answer");
    assert("answer"@.len() == 6);
    reveal_strlit("answered_by");
    assert("answered_by"@.len() == 11);
    reveal_strlit("answered_seq");
    assert("answered_seq"@.len() == 12);
    reveal_strlit("answers");
    assert("answers"@.len() == 7);
    reveal_strlit("asked_seq");
    assert("asked_seq"@.len() == 9);
    reveal_strlit("id");
    assert("id"@.len() == 2);
    reveal_strlit("text");
    assert("text"@.len() == 4);
    reveal_strlit("work_id");
    assert("work_id"@.len() == 7);
    reveal_strlit("stranded");
    assert("stranded"@.len() == 8);
    assert("answers"@[0] != "work_id"@[0]);
    found_first(members, 8, "stranded"@);
}

/// Whatever fields a mutation has, its document keeps them, apart from those that stand
/// under the keys of the envelope.
pub proof fn mutations_keep_their_fields(
    head: HeadView,
    schema: Seq<char>,
    event_id: Seq<char>,
    fields: JsonView,
    key: Seq<char>,
)
    requires
        key != "schema"@,
        key != "head"@,
        key != "revision"@,
        key != "event_id"@,
    ensures
        documents::mutation(head, schema, event_id, fields).member(key) == fields.member(key),
{
    let own = JsonView::Object(documents::own_members(fields));
    match fields {
        JsonView::Object(members) => {
            own_members_keep_the_rest(members, key);
        },
        _ => {},
    }
    let one = own.with("schema"@, JsonView::Text(schema));
    let two = one.with("head"@, JsonView::Int(head.seq as int));
    let three = two.with("revision"@, json::text_or_null(head.revision));
    json::member_of_extended(own, "schema"@, JsonView::Text(schema), key);
    json::member_of_extended(one, "head"@, JsonView::Int(head.seq as int), key);
    json::member_of_extended(two, "revision"@, json::text_or_null(head.revision), key);
    json::member_of_extended(three, "event_id"@, JsonView::Text(event_id), key);
}

proof fn own_members_keep_the_rest(members: Seq<(Seq<char>, JsonView)>, key: Seq<char>)
    requires
        !documents::envelope_key(key),
    ensures
        json::first_member(
            members.filter(|m: (Seq<char>, JsonView)| !documents::envelope_key(m.0)),
            key,
        ) == json::first_member(members, key),
    decreases members.len(),
{
    reveal(Seq::filter);
    let test = |m: (Seq<char>, JsonView)| !documents::envelope_key(m.0);
    if members.len() > 0 {
        let front = members.drop_last();
        own_members_keep_the_rest(front, key);
        assert(members =~= front.push(members.last()));
        let all = JsonView::Object(front);
        json::member_of_extended(all, members.last().0, members.last().1, key);
        if test(members.last()) {
            let kept = JsonView::Object(front.filter(test));
            json::member_of_extended(kept, members.last().0, members.last().1, key);
        }
    }
}

// ---- history ----

/// Whether an event belongs to the history of an object: it names the object or, where that
/// is a work item, an attempt at it or a question about it.
pub open spec fn concerns(s: StateView, payload: EventPayloadView, id: Seq<char>) -> bool {
    ||| payload.names(id)
    ||| exists|a: AttemptView| #[trigger]
        has_value(s.attempts, a) && s.work.contains_key(id) && a.work_id == id && payload.names(
            a.id,
        )
    ||| exists|q: QuestionView| #[trigger]
        has_value(s.questions, q) && s.work.contains_key(id) && q.work_id == id && payload.names(
            q.id,
        )
}

proof fn concerns_is_naming(s: StateView, payload: EventPayloadView, id: Seq<char>)
    requires
        laws::keyed(s),
    ensures
        documents::names_one(payload, documents::related(s, id)) <==> concerns(s, payload, id),
{
    let ids = documents::related(s, id);
    if s.work.contains_key(id) {
        let all_attempts = selection::values::<String, AttemptView>(s.attempts);
        let all_questions = selection::values::<String, QuestionView>(s.questions);
        projection_laws::values_are_the_entries(s.attempts);
        projection_laws::values_are_the_entries(s.questions);
        let attempts = all_attempts.filter(documents::attempts_of(id));
        let questions = all_questions.filter(documents::questions_of(id));
        let n = attempts.len() as int;
        let m = questions.len() as int;
        assert(ids.len() == n + m + 1);
        assert(ids[n + m] == id);
        if documents::names_one(payload, ids) {
            let i = choose|i: int| 0 <= i < ids.len() && payload.names(#[trigger] ids[i]);
            if i < n {
                let a = attempts[i];
                assert(ids[i] == a.id);
                assert(attempts.contains(a));
                status_laws::filtered_holds(all_attempts, documents::attempts_of(id), a);
                assert(all_attempts.contains(a));
                assert(has_value(s.attempts, a));
            } else if i < n + m {
                let q = questions[i - n];
                assert(ids[i] == q.id);
                assert(questions.contains(q));
                status_laws::filtered_holds(all_questions, documents::questions_of(id), q);
                assert(all_questions.contains(q));
                assert(has_value(s.questions, q));
            }
        }
        if payload.names(id) {
            assert(payload.names(ids[n + m]));
        }
        if exists|a: AttemptView| #[trigger]
            has_value(s.attempts, a) && s.work.contains_key(id) && a.work_id == id
                && payload.names(a.id) {
            let a = choose|a: AttemptView| #[trigger]
                has_value(s.attempts, a) && s.work.contains_key(id) && a.work_id == id
                    && payload.names(a.id);
            assert(all_attempts.contains(a));
            status_laws::filtered_holds(all_attempts, documents::attempts_of(id), a);
            let i = choose|i: int| 0 <= i < attempts.len() && attempts[i] == a;
            assert(ids[i] == a.id);
        }
        if exists|q: QuestionView| #[trigger]
            has_value(s.questions, q) && s.work.contains_key(id) && q.work_id == id
                && payload.names(q.id) {
            let q = choose|q: QuestionView| #[trigger]
                has_value(s.questions, q) && s.work.contains_key(id) && q.work_id == id
                    && payload.names(q.id);
            assert(all_questions.contains(q));
            status_laws::filtered_holds(all_questions, documents::questions_of(id), q);
            let i = choose|i: int| 0 <= i < questions.len() && questions[i] == q;
            assert(ids[n + i] == q.id);
        }
    } else {
        assert(ids[0] == id);
    }
}

/// The history of an object is what of the log concerns it, in the order of the log: with
/// one more event it is longer by that event, or as it was.
pub proof fn histories_grow_with_the_log(
    s: StateView,
    events: Seq<EventView>,
    event: EventView,
    id: Seq<char>,
)
    requires
        laws::keyed(s),
    ensures
        documents::history(s, Seq::empty(), id) == Seq::<EventView>::empty(),
        concerns(s, event.payload, id) ==> documents::history(s, events.push(event), id)
            == documents::history(s, events, id).push(event),
        !concerns(s, event.payload, id) ==> documents::history(s, events.push(event), id)
            == documents::history(s, events, id),
{
    reveal(Seq::filter);
    concerns_is_naming(s, event.payload, id);
    assert(events.push(event).drop_last() =~= events);
    assert(events.push(event).last() == event);
}

/// Whether a record is there before and after, and the same, or at neither time.
pub open spec fn untouched<T>(
    before: Map<Seq<char>, T>,
    after: Map<Seq<char>, T>,
    id: Seq<char>,
) -> bool {
    &&& before.contains_key(id) <==> after.contains_key(id)
    &&& before.contains_key(id) ==> after[id] == before[id]
}

/// An event names whatever it changes: the records of all that it does not name stay as
/// they were. Nor does an event name what is not there behind it, but for handoffs.
pub proof fn events_name_what_they_change(s: StateView, event: EventView, id: Seq<char>)
    requires
        laws::sound(s),
        rules::step(s, event) is Ok,
    ensures
        ({
            let t = rules::step(s, event)->Ok_0;
            &&& !event.payload.names(id) ==> untouched(s.work, t.work, id) && untouched(
                s.attempts,
                t.attempts,
                id,
            ) && untouched(s.questions, t.questions, id)
            &&& event.payload.names(id) && !event.payload.legacy() ==> t.work.contains_key(id)
                || t.attempts.contains_key(id) || t.questions.contains_key(id)
        }),
{
    let t = rules::step(s, event)->Ok_0;
    match event.payload {
        EventPayloadView::Work(WorkEventPayloadView::WorkChanged { why, operations }) => {
            change_laws::changes_do_what_their_operations_say(s, event, why, operations);
            if !event.payload.names(id) {
                assert forall|i: int| 0 <= i < operations.len() implies (
                #[trigger] operations[i]).target() != id by {
                    assert(!crate::event::operation_names(operations[i], id));
                }
                assert(t.work.contains_key(id) <==> s.work.contains_key(id));
            } else {
                let i = choose|i: int|
                    0 <= i < operations.len() && crate::event::operation_names(
                        #[trigger] operations[i],
                        id,
                    );
                let target = operations[i].target();
                assert(t.work.contains_key(target));
                if target != id {
                    assert(t.work[target].requires.contains(id));
                }
            }
        },
        EventPayloadView::Work(
            WorkEventPayloadView::LegacyHandoffIntegrated { handoff_id, work },
        ) => {
            change_laws::integrated_handoffs_open_their_work(s, event, handoff_id, work);
        },
        EventPayloadView::Work(
            WorkEventPayloadView::WorkFinished { work_id, attempt_id, external, evidence },
        ) => {
            effect_laws::finishing_closes_the_work_alone(
                s,
                event,
                work_id,
                attempt_id,
                external,
                evidence,
            );
        },
        EventPayloadView::Work(
            WorkEventPayloadView::WorkDropped { work_id, attempt_id, outcome, why },
        ) => {
            effect_laws::dropping_closes_the_work_alone(
                s,
                event,
                work_id,
                attempt_id,
                outcome,
                why,
            );
        },
        _ => {},
    }
}

// ---- the document about one object ----

/// Something of the project is shown as what it is, with its record and its history.
/// Nothing else is found.
pub proof fn objects_are_shown_as_they_are(
    s: StateView,
    events: Seq<EventView>,
    head: HeadView,
    id: Seq<char>,
)
    requires
        laws::keyed(s),
        projection_laws::finite_attempts(s),
    ensures
        ({
            let answer = documents::show_answer(s, events, head, id);
            let past = documents::history(s, events, id);
            &&& answer is Ok <==> s.work.contains_key(id) || s.attempts.contains_key(id)
                || s.questions.contains_key(id)
            &&& answer is Ok ==> {
                let document = answer->Ok_0;
                &&& document.member("id"@) == Some(JsonView::Text(id))
                &&& document.member("head"@) == Some(JsonView::Int(head.seq as int))
                &&& document.member("current"@) is Some
                &&& says_each(
                    document,
                    "history"@,
                    past,
                    |told: JsonView, event: EventView| says_summary(told, event),
                )
                &&& if s.work.contains_key(id) {
                    &&& document.member("kind"@) == Some(JsonView::Text("work"@))
                    &&& says_work(document.member("current"@)->0, s.work[id])
                } else if s.attempts.contains_key(id) {
                    &&& document.member("kind"@) == Some(JsonView::Text("attempt"@))
                    &&& says_attempt(document.member("current"@)->0, s.attempts[id])
                } else {
                    &&& document.member("kind"@) == Some(JsonView::Text("question"@))
                    &&& says_question(document.member("current"@)->0, s.questions[id])
                }
            }
        }),
{
    let answer = documents::show_answer(s, events, head, id);
    let past = documents::history(s, events, id);
    if answer is Ok {
        let document = answer->Ok_0;
        let members = document->Object_0;
        reveal_strlit("current");
        assert("current"@.len() == 7);
        reveal_strlit("head");
        assert("head"@.len() == 4);
        reveal_strlit("history");
        assert("history"@.len() == 7);
        reveal_strlit("id");
        assert("id"@.len() == 2);
        reveal_strlit("kind");
        assert("kind"@.len() == 4);
        reveal_strlit("schema");
        assert("schema"@.len() == 6);
        assert("current"@[0] != "history"@[0]);
        assert("head"@[0] != "kind"@[0]);
        if s.work.contains_key(id) {
            work_documents_tell_the_work(s.work[id]);
        } else if s.attempts.contains_key(id) {
            attempt_documents_tell_the_attempts(s.attempts[id]);
        } else {
            question_documents_tell_what_strands_them(s, s.questions[id]);
        }
        assert forall|event: EventView| says_summary(
            #[trigger] documents::summary(event),
            event,
        ) by {
            summaries_tell_the_events(event);
        }
        found_first(members, 0, "current"@);
        found_first(members, 1, "head"@);
        found_first(members, 2, "history"@);
        found_first(members, 3, "id"@);
        found_first(members, 4, "kind"@);
    }
}

// ---- the loop ----

/// The review times are those of the blocked work that has one, the earliest first.
pub proof fn review_times_are_those_of_blocked_work(s: StateView)
    requires
        laws::keyed(s),
    ensures
        ({
            let times = documents::review_deadlines(s);
            &&& forall|at: Instant| #[trigger]
                times.contains(at) <==> exists|w: WorkView| #[trigger]
                    has_value(s.work, w) && w.state is Blocked && w.block_until == Some(at)
            &&& forall|i: int, j: int|
                0 <= i < j < times.len() ==> !(#[trigger] times[j]).earlier(#[trigger] times[i])
        }),
{
    let items = selection::values::<String, WorkView>(s.work);
    let found = documents::deadlines_among(items);
    let times = documents::review_deadlines(s);
    projection_laws::values_are_the_entries(s.work);
    documents::deadlines_are_reviews(items);
    assert(sorting::weak_order::<Instant>());
    sorting::sorted_is_ordered_permutation::<Instant>(found);
    assert forall|at: Instant| #[trigger] times.contains(at) <==> exists|w: WorkView| #[trigger]
        has_value(s.work, w) && w.state is Blocked && w.block_until == Some(at) by {
        effect_laws::sorted_holds::<Instant>(found, at);
        assert(found.contains(at) <==> documents::due(items, at));
        if documents::due(items, at) {
            let i = choose|i: int|
                0 <= i < items.len() && (#[trigger] items[i]).state is Blocked
                    && items[i].block_until == Some(at);
            assert(items.contains(items[i]));
            assert(has_value(s.work, items[i]));
        }
        if exists|w: WorkView| #[trigger]
            has_value(s.work, w) && w.state is Blocked && w.block_until == Some(at) {
            let w = choose|w: WorkView| #[trigger]
                has_value(s.work, w) && w.state is Blocked && w.block_until == Some(at);
            assert(items.contains(w));
            let i = choose|i: int| 0 <= i < items.len() && items[i] == w;
            assert(items[i].block_until == Some(at));
        }
    }
    assert forall|i: int, j: int| 0 <= i < j < times.len() implies !(#[trigger] times[j]).earlier(
        #[trigger] times[i],
    ) by {
        assert(!<Instant as sorting::Ranked>::ahead(times[j], times[i]));
    }
}

/// What is wanted of the loop, as the log has it, and when something is to be reviewed.
pub open spec fn says_loop(document: JsonView, s: StateView) -> bool {
    let times = documents::review_deadlines(s);
    &&& says_text(document, "engine"@, s.loop_control.engine)
    &&& says_text(document, "pause_reason"@, s.loop_control.pause_reason)
    &&& document.member("paused"@) == Some(JsonView::Bool(s.loop_control.paused))
    &&& says_number(document, "nudge_requested_seq"@, s.loop_control.nudge_requested_seq)
    &&& says_number(document, "rotate_requested_seq"@, s.loop_control.rotate_requested_seq)
    &&& times.len() > 0 ==> says_time(document, "review_at"@, times[0])
    &&& times.len() == 0 ==> document.member("review_at"@) == Some(JsonView::Null)
    &&& document.member("review_deadlines"@) is Some
    &&& document.member("review_deadlines"@)->0 is List
    &&& document.member("review_deadlines"@)->0->List_0.len() == times.len()
    &&& forall|i: int|
        0 <= i < times.len() && (#[trigger] times[i]).wire() is Some ==> document.member(
            "review_deadlines"@,
        )->0->List_0[i] == JsonView::Text(times[i].wire()->0)
}

/// The document about the loop tells all that is wanted of it.
pub proof fn loop_documents_tell_what_is_wanted(s: StateView)
    ensures
        says_loop(documents::loop_document(s), s),
{
    let document = documents::loop_document(s);
    let members = document->Object_0;
    reveal_strlit("engine");
    assert("engine"@.len() == 6);
    reveal_strlit("nudge_requested_seq");
    assert("nudge_requested_seq"@.len() == 19);
    reveal_strlit("pause_reason");
    assert("pause_reason"@.len() == 12);
    reveal_strlit("paused");
    assert("paused"@.len() == 6);
    reveal_strlit("review_at");
    assert("review_at"@.len() == 9);
    reveal_strlit("review_deadlines");
    assert("review_deadlines"@.len() == 16);
    reveal_strlit("rotate_requested_seq");
    assert("rotate_requested_seq"@.len() == 20);
    assert("engine"@[0] != "paused"@[0]);
    found_first(members, 0, "engine"@);
    found_first(members, 1, "nudge_requested_seq"@);
    found_first(members, 2, "pause_reason"@);
    found_first(members, 3, "paused"@);
    found_first(members, 4, "review_at"@);
    found_first(members, 5, "review_deadlines"@);
    found_first(members, 6, "rotate_requested_seq"@);
}

/// A picture has a document for each of the levels that are known, in the order of their keys.
pub proof fn pictures_tell_the_levels(observations: Map<ObservationKeyView, ObservationView>)
    ensures
        ({
            let known = selection::values::<ObservationKey, ObservationView>(observations);
            let document = crate::picture::picture_json(observations);
            &&& document is List
            &&& document->List_0.len() == known.len()
            &&& forall|i: int|
                0 <= i < known.len() ==> says_observation(
                    #[trigger] document->List_0[i],
                    known[i],
                )
        }),
{
    assert forall|o: ObservationView| says_observation(
        #[trigger] documents::observation_json(o),
        o,
    ) by {
        observation_documents_tell_the_observations(o);
    }
}

} // verus!

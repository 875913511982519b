//! What the body of an event says, member by member.

use vstd::prelude::*;

use crate::attempt::{AttemptDefinition, AttemptDefinitionView, CheckUpdate, CheckUpdateView};
use crate::document_laws;
use crate::document_laws::{says_check, says_each, says_text, says_texts, says_time};
use crate::event::{EventPayloadView, LoopEventPayloadView, WorkEventPayloadView};
use crate::json::{Json, JsonView};
use crate::observation::{
    ObservationDefinition, ObservationDefinitionView, ObservationEventPayloadView, ObservationKey,
    ObservationKeyView,
};
use crate::projection_laws;
use crate::projection_laws::{check_word, outcome_word};
use crate::question::{QuestionDefinition, QuestionDefinitionView};
use crate::wire::ToJson;
use crate::work::{
    CheckDefinition, CheckDefinitionView, WorkDefinition, WorkDefinitionView, WorkOperation,
    WorkOperationView, WorkStateChange, WorkStateChangeView,
};

verus! {

// ---- what statements are made of ----

proof fn checks_are_told()
    ensures
        forall|check: CheckDefinitionView| says_check(
            #[trigger] <CheckDefinition as ToJson>::json(check),
            check,
        ),
{
    assert forall|check: CheckDefinitionView| says_check(
        #[trigger] <CheckDefinition as ToJson>::json(check),
        check,
    ) by {
        document_laws::check_documents_tell_the_checks(check);
    }
}

/// A new work item, with every field under its name.
pub open spec fn says_new_work(document: JsonView, work: WorkDefinitionView) -> bool {
    &&& document.member("id"@) == Some(JsonView::Text(work.id))
    &&& document.member("title"@) == Some(JsonView::Text(work.title))
    &&& says_text(document, "spec"@, work.spec)
    &&& document.member("priority"@) == Some(JsonView::Int(work.priority as int))
    &&& says_texts(document, "requires"@, work.requires)
    &&& says_each(
        document,
        "checks"@,
        work.checks,
        |told: JsonView, check: CheckDefinitionView| says_check(told, check),
    )
}

/// What is said of a new work item is all of it.
pub proof fn new_work_is_told(work: WorkDefinitionView)
    ensures
        says_new_work(<WorkDefinition as ToJson>::json(work), work),
{
    let members = <WorkDefinition as ToJson>::json(work)->Object_0;
    checks_are_told();
    reveal_strlit("id");
    assert("id"@.len() == 2);
    reveal_strlit("title");
    assert("title"@.len() == 5);
    reveal_strlit("spec");
    assert("spec"@.len() == 4);
    reveal_strlit("priority");
    assert("priority"@.len() == 8);
    reveal_strlit("requires");
    assert("requires"@.len() == 8);
    reveal_strlit("checks");
    assert("checks"@.len() == 6);
    assert("priority"@[0] != "requires"@[0]);
    document_laws::found_first(members, 0, "id"@);
    document_laws::found_first(members, 1, "title"@);
    document_laws::found_first(members, 2, "spec"@);
    document_laws::found_first(members, 3, "priority"@);
    document_laws::found_first(members, 4, "requires"@);
    document_laws::found_first(members, 5, "checks"@);
}

/// A new attempt, with every field under its name.
pub open spec fn says_new_attempt(document: JsonView, attempt: AttemptDefinitionView) -> bool {
    &&& document.member("id"@) == Some(JsonView::Text(attempt.id))
    &&& document.member("work_id"@) == Some(JsonView::Text(attempt.work_id))
    &&& says_text(document, "tier"@, attempt.tier)
    &&& document.member("metadata"@) is Some && projection_laws::has_members(
        document.member("metadata"@)->0,
        attempt.metadata,
    )
}

/// What is said of a new attempt is all of it.
pub proof fn new_attempts_are_told(attempt: AttemptDefinitionView)
    requires
        attempt.metadata.dom().finite(),
    ensures
        says_new_attempt(<AttemptDefinition as ToJson>::json(attempt), attempt),
{
    let members = <AttemptDefinition as ToJson>::json(attempt)->Object_0;
    projection_laws::maps_have_members::<Json>(attempt.metadata);
    reveal_strlit("id");
    assert("id"@.len() == 2);
    reveal_strlit("work_id");
    assert("work_id"@.len() == 7);
    reveal_strlit("tier");
    assert("tier"@.len() == 4);
    reveal_strlit("metadata");
    assert("metadata"@.len() == 8);
    document_laws::found_first(members, 0, "id"@);
    document_laws::found_first(members, 1, "work_id"@);
    document_laws::found_first(members, 2, "tier"@);
    document_laws::found_first(members, 3, "metadata"@);
}

/// A verdict on a check.
pub open spec fn says_update(document: JsonView, update: CheckUpdateView) -> bool {
    &&& document.member("key"@) == Some(JsonView::Text(update.key))
    &&& document.member("status"@) == Some(JsonView::Text(check_word(update.status)))
    &&& document.member("evidence"@) == Some(JsonView::Text(update.evidence))
}

/// What is said of a verdict is all of it.
pub proof fn verdicts_are_told(update: CheckUpdateView)
    ensures
        says_update(<CheckUpdate as ToJson>::json(update), update),
{
    let members = <CheckUpdate as ToJson>::json(update)->Object_0;
    reveal_strlit("key");
    assert("key"@.len() == 3);
    reveal_strlit("status");
    assert("status"@.len() == 6);
    reveal_strlit("evidence");
    assert("evidence"@.len() == 8);
    document_laws::found_first(members, 0, "key"@);
    document_laws::found_first(members, 1, "status"@);
    document_laws::found_first(members, 2, "evidence"@);
}

/// A new question.
pub open spec fn says_new_question(document: JsonView, question: QuestionDefinitionView) -> bool {
    &&& document.member("id"@) == Some(JsonView::Text(question.id))
    &&& document.member("work_id"@) == Some(JsonView::Text(question.work_id))
    &&& document.member("text"@) == Some(JsonView::Text(question.text))
}

/// What is said of a new question is all of it.
pub proof fn new_questions_are_told(question: QuestionDefinitionView)
    ensures
        says_new_question(<QuestionDefinition as ToJson>::json(question), question),
{
    let members = <QuestionDefinition as ToJson>::json(question)->Object_0;
    reveal_strlit("id");
    assert("id"@.len() == 2);
    reveal_strlit("work_id");
    assert("work_id"@.len() == 7);
    reveal_strlit("text");
    assert("text"@.len() == 4);
    document_laws::found_first(members, 0, "id"@);
    document_laws::found_first(members, 1, "work_id"@);
    document_laws::found_first(members, 2, "text"@);
}

/// What an observation is of: who observes which field of whom.
pub open spec fn says_key(document: JsonView, key: ObservationKeyView) -> bool {
    &&& document.member("observer"@) == Some(JsonView::Text(key.observer))
    &&& document.member("subject"@) == Some(JsonView::Text(key.subject))
    &&& document.member("field"@) == Some(JsonView::Text(key.field))
}

/// What is said of a key is all of it.
pub proof fn keys_are_told(key: ObservationKeyView)
    ensures
        says_key(<ObservationKey as ToJson>::json(key), key),
{
    let members = <ObservationKey as ToJson>::json(key)->Object_0;
    reveal_strlit("observer");
    assert("observer"@.len() == 8);
    reveal_strlit("subject");
    assert("subject"@.len() == 7);
    reveal_strlit("field");
    assert("field"@.len() == 5);
    document_laws::found_first(members, 0, "observer"@);
    document_laws::found_first(members, 1, "subject"@);
    document_laws::found_first(members, 2, "field"@);
}

/// A level that is reported.
pub open spec fn says_report(document: JsonView, observation: ObservationDefinitionView) -> bool {
    &&& document.member("key"@) is Some && says_key(document.member("key"@)->0, observation.key)
    &&& document.member("level"@) == Some(JsonView::Text(observation.level))
}

/// What is said of a report is all of it.
pub proof fn reports_are_told(observation: ObservationDefinitionView)
    ensures
        says_report(<ObservationDefinition as ToJson>::json(observation), observation),
{
    let members = <ObservationDefinition as ToJson>::json(observation)->Object_0;
    keys_are_told(observation.key);
    reveal_strlit("key");
    assert("key"@.len() == 3);
    reveal_strlit("level");
    assert("level"@.len() == 5);
    document_laws::found_first(members, 0, "key"@);
    document_laws::found_first(members, 1, "level"@);
}

/// A change of state: a block, with the reason and the time to review it, or its end.
pub open spec fn says_change(document: JsonView, change: WorkStateChangeView) -> bool {
    match change {
        WorkStateChangeView::Block { reason, until } => {
            &&& document.member("op"@) == Some(JsonView::Text("block"@))
            &&& document.member("reason"@) == Some(JsonView::Text(reason))
            &&& until is Some ==> says_time(document, "until"@, until->0)
            &&& until is None ==> document.member("until"@) == Some(JsonView::Null)
        },
        WorkStateChangeView::Unblock { reason } => {
            &&& document.member("op"@) == Some(JsonView::Text("unblock"@))
            &&& document.member("reason"@) == Some(JsonView::Text(reason))
        },
    }
}

/// What is said of a change of state is all of it.
pub proof fn state_changes_are_told(change: WorkStateChangeView)
    ensures
        says_change(<WorkStateChange as ToJson>::json(change), change),
{
    let members = <WorkStateChange as ToJson>::json(change)->Object_0;
    reveal_strlit("op");
    assert("op"@.len() == 2);
    reveal_strlit("reason");
    assert("reason"@.len() == 6);
    reveal_strlit("until");
    assert("until"@.len() == 5);
    document_laws::found_first(members, 0, "op"@);
    document_laws::found_first(members, 1, "reason"@);
    if change is Block {
        document_laws::found_first(members, 2, "until"@);
    }
}

/// An operation on the plan: a new item, or an edit, in which a specification that is left as
/// it is has no member, and one that is cleared says nothing.
pub open spec fn says_operation(document: JsonView, operation: WorkOperationView) -> bool {
    match operation {
        WorkOperationView::Add { work } => {
            &&& document.member("op"@) == Some(JsonView::Text("add"@))
            &&& document.member("work"@) is Some && says_new_work(document.member("work"@)->0, work)
        },
        WorkOperationView::Edit {
            id,
            title,
            spec,
            priority,
            add_requires,
            remove_requires,
            add_checks,
            remove_checks,
            state_change,
        } => {
            &&& document.member("op"@) == Some(JsonView::Text("edit"@))
            &&& document.member("id"@) == Some(JsonView::Text(id))
            &&& says_text(document, "title"@, title)
            &&& spec is Some ==> says_text(document, "spec"@, spec->0)
            &&& spec is None ==> document.member("spec"@) is None
            &&& priority is Some ==> document.member("priority"@) == Some(
                JsonView::Int(priority->0 as int),
            )
            &&& priority is None ==> document.member("priority"@) == Some(JsonView::Null)
            &&& says_texts(document, "add_requires"@, add_requires)
            &&& says_texts(document, "remove_requires"@, remove_requires)
            &&& says_texts(document, "remove_checks"@, remove_checks)
            &&& says_each(
                document,
                "add_checks"@,
                add_checks,
                |told: JsonView, check: CheckDefinitionView| says_check(told, check),
            )
            &&& state_change is Some ==> document.member("state_change"@) is Some && says_change(
                document.member("state_change"@)->0,
                state_change->0,
            )
            &&& state_change is None ==> document.member("state_change"@) == Some(JsonView::Null)
        },
    }
}

/// What is said of an operation is all of it.
pub proof fn operations_are_told(operation: WorkOperationView)
    ensures
        says_operation(<WorkOperation as ToJson>::json(operation), operation),
{
    let document = <WorkOperation as ToJson>::json(operation);
    let members = document->Object_0;
    checks_are_told();
    match operation {
        WorkOperationView::Add { work } => {
            new_work_is_told(work);
            reveal_strlit("op");
            assert("op"@.len() == 2);
            reveal_strlit("work");
            assert("work"@.len() == 4);
            document_laws::found_first(members, 0, "op"@);
            document_laws::found_first(members, 1, "work"@);
        },
        WorkOperationView::Edit { spec, state_change, .. } => {
            if state_change is Some {
                state_changes_are_told(state_change->0);
            }
            reveal_strlit("op");
            assert("op"@.len() == 2);
            reveal_strlit("id");
            assert("id"@.len() == 2);
            reveal_strlit("title");
            assert("title"@.len() == 5);
            reveal_strlit("priority");
            assert("priority"@.len() == 8);
            reveal_strlit("add_requires");
            assert("add_requires"@.len() == 12);
            reveal_strlit("remove_requires");
            assert("remove_requires"@.len() == 15);
            reveal_strlit("add_checks");
            assert("add_checks"@.len() == 10);
            reveal_strlit("remove_checks");
            assert("remove_checks"@.len() == 13);
            reveal_strlit("state_change");
            assert("state_change"@.len() == 12);
            reveal_strlit("spec");
            assert("spec"@.len() == 4);
            assert("op"@[0] != "id"@[0]);
            assert("add_requires"@[0] != "state_change"@[0]);
            document_laws::found_first(members, 0, "op"@);
            document_laws::found_first(members, 1, "id"@);
            document_laws::found_first(members, 2, "title"@);
            document_laws::found_first(members, 3, "priority"@);
            document_laws::found_first(members, 4, "add_requires"@);
            document_laws::found_first(members, 5, "remove_requires"@);
            document_laws::found_first(members, 6, "add_checks"@);
            document_laws::found_first(members, 7, "remove_checks"@);
            document_laws::found_first(members, 8, "state_change"@);
            if spec is Some {
                document_laws::found_first(members, 9, "spec"@);
            } else {
                crate::wire::member_missing(members, "spec"@);
            }
        },
    }
}

// ---- statements ----

/// Whether the metadata of a statement is finite.
pub open spec fn finitely_stated(payload: WorkEventPayloadView) -> bool {
    match payload {
        WorkEventPayloadView::AttemptStarted { attempt } => attempt.metadata.dom().finite(),
        WorkEventPayloadView::AttemptBound { metadata, .. } => metadata.dom().finite(),
        WorkEventPayloadView::AttemptUpdated { metadata, .. } => metadata.dom().finite(),
        _ => true,
    }
}

/// What the body of a statement about work, attempts and questions says: every field under its
/// name.
pub open spec fn says_statement(document: JsonView, payload: WorkEventPayloadView) -> bool {
    match payload {
        WorkEventPayloadView::WorkFinished { work_id, attempt_id, external, evidence } => {
            &&& document.member("work_id"@) == Some(JsonView::Text(work_id))
            &&& says_text(document, "attempt_id"@, attempt_id)
            &&& document.member("external"@) == Some(JsonView::Bool(external))
            &&& says_text(document, "evidence"@, evidence)
        },
        WorkEventPayloadView::WorkDropped { work_id, attempt_id, outcome, why } => {
            &&& document.member("work_id"@) == Some(JsonView::Text(work_id))
            &&& says_text(document, "attempt_id"@, attempt_id)
            &&& outcome is Some ==> document.member("outcome"@) == Some(
                JsonView::Text(outcome_word(outcome->0)),
            )
            &&& outcome is None ==> document.member("outcome"@) == Some(JsonView::Null)
            &&& document.member("why"@) == Some(JsonView::Text(why))
        },
        WorkEventPayloadView::WorkReopened { work_id, why } => {
            &&& document.member("work_id"@) == Some(JsonView::Text(work_id))
            &&& document.member("why"@) == Some(JsonView::Text(why))
        },
        WorkEventPayloadView::AttemptStarted { attempt } => {
            &&& document.member("attempt"@) is Some && says_new_attempt(
                document.member("attempt"@)->0,
                attempt,
            )
        },
        WorkEventPayloadView::AttemptBound { attempt_id, handle, metadata } => {
            &&& document.member("attempt_id"@) == Some(JsonView::Text(attempt_id))
            &&& document.member("handle"@) == Some(JsonView::Text(handle))
            &&& document.member("metadata"@) is Some && projection_laws::has_members(
                document.member("metadata"@)->0,
                metadata,
            )
        },
        WorkEventPayloadView::AttemptUpdated { attempt_id, tier, metadata, note, checks } => {
            &&& document.member("attempt_id"@) == Some(JsonView::Text(attempt_id))
            &&& says_text(document, "tier"@, tier)
            &&& document.member("metadata"@) is Some && projection_laws::has_members(
                document.member("metadata"@)->0,
                metadata,
            )
            &&& says_text(document, "note"@, note)
            &&& says_each(
                document,
                "checks"@,
                checks,
                |told: JsonView, update: CheckUpdateView| says_update(told, update),
            )
        },
        WorkEventPayloadView::AttemptEnded { attempt_id, outcome, why } => {
            &&& document.member("attempt_id"@) == Some(JsonView::Text(attempt_id))
            &&& document.member("outcome"@) == Some(JsonView::Text(outcome_word(outcome)))
            &&& document.member("why"@) == Some(JsonView::Text(why))
        },
        WorkEventPayloadView::QuestionAsked { question } => {
            &&& document.member("question"@) is Some && says_new_question(
                document.member("question"@)->0,
                question,
            )
        },
        WorkEventPayloadView::QuestionAnswered { question_id, answer } => {
            &&& document.member("question_id"@) == Some(JsonView::Text(question_id))
            &&& document.member("answer"@) == Some(JsonView::Text(answer))
        },
        WorkEventPayloadView::WorkChanged { why, operations } => {
            &&& says_text(document, "why"@, why)
            &&& says_each(
                document,
                "operations"@,
                operations,
                |told: JsonView, operation: WorkOperationView| says_operation(told, operation),
            )
        },
        _ => true,
    }
}

/// The body of a statement about work, attempts and questions says all of it.
pub proof fn bodies_say_all_that_is_stated(payload: WorkEventPayloadView)
    requires
        finitely_stated(payload),
    ensures
        says_statement(payload.body(), payload),
{
    let members = payload.body()->Object_0;
    assert forall|update: CheckUpdateView| says_update(
        #[trigger] <CheckUpdate as ToJson>::json(update),
        update,
    ) by {
        verdicts_are_told(update);
    }
    assert forall|operation: WorkOperationView| says_operation(
        #[trigger] <WorkOperation as ToJson>::json(operation),
        operation,
    ) by {
        operations_are_told(operation);
    }
    match payload {
        WorkEventPayloadView::WorkFinished { work_id, attempt_id, external, evidence } => {
            reveal_strlit("work_id");
            assert("work_id"@.len() == 7);
            reveal_strlit("attempt_id");
            assert("attempt_id"@.len() == 10);
            reveal_strlit("external");
            assert("external"@.len() == 8);
            reveal_strlit("evidence");
            assert("evidence"@.len() == 8);
            assert("external"@[1] != "evidence"@[1]);
            document_laws::found_first(members, 0, "work_id"@);
            document_laws::found_first(members, 1, "attempt_id"@);
            document_laws::found_first(members, 2, "external"@);
            document_laws::found_first(members, 3, "evidence"@);
        },
        WorkEventPayloadView::WorkDropped { work_id, attempt_id, outcome, why } => {
            reveal_strlit("work_id");
            assert("work_id"@.len() == 7);
            reveal_strlit("attempt_id");
            assert("attempt_id"@.len() == 10);
            reveal_strlit("outcome");
            assert("outcome"@.len() == 7);
            reveal_strlit("why");
            assert("why"@.len() == 3);
            assert("work_id"@[0] != "outcome"@[0]);
            document_laws::found_first(members, 0, "work_id"@);
            document_laws::found_first(members, 1, "attempt_id"@);
            document_laws::found_first(members, 2, "outcome"@);
            document_laws::found_first(members, 3, "why"@);
        },
        WorkEventPayloadView::WorkReopened { work_id, why } => {
            reveal_strlit("work_id");
            assert("work_id"@.len() == 7);
            reveal_strlit("why");
            assert("why"@.len() == 3);
            document_laws::found_first(members, 0, "work_id"@);
            document_laws::found_first(members, 1, "why"@);
        },
        WorkEventPayloadView::AttemptStarted { attempt } => {
            new_attempts_are_told(attempt);
            reveal_strlit("attempt");
            assert("attempt"@.len() == 7);
            document_laws::found_first(members, 0, "attempt"@);
        },
        WorkEventPayloadView::AttemptBound { attempt_id, handle, metadata } => {
            projection_laws::maps_have_members::<Json>(metadata);
            reveal_strlit("attempt_id");
            assert("attempt_id"@.len() == 10);
            reveal_strlit("handle");
            assert("handle"@.len() == 6);
            reveal_strlit("metadata");
            assert("metadata"@.len() == 8);
            document_laws::found_first(members, 0, "attempt_id"@);
            document_laws::found_first(members, 1, "handle"@);
            document_laws::found_first(members, 2, "metadata"@);
        },
        WorkEventPayloadView::AttemptUpdated { attempt_id, tier, metadata, note, checks } => {
            projection_laws::maps_have_members::<Json>(metadata);
            reveal_strlit("attempt_id");
            assert("attempt_id"@.len() == 10);
            reveal_strlit("tier");
            assert("tier"@.len() == 4);
            reveal_strlit("metadata");
            assert("metadata"@.len() == 8);
            reveal_strlit("note");
            assert("note"@.len() == 4);
            reveal_strlit("checks");
            assert("checks"@.len() == 6);
            assert("tier"@[0] != "note"@[0]);
            document_laws::found_first(members, 0, "attempt_id"@);
            document_laws::found_first(members, 1, "tier"@);
            document_laws::found_first(members, 2, "metadata"@);
            document_laws::found_first(members, 3, "note"@);
            document_laws::found_first(members, 4, "checks"@);
        },
        WorkEventPayloadView::AttemptEnded { attempt_id, outcome, why } => {
            reveal_strlit("attempt_id");
            assert("attempt_id"@.len() == 10);
            reveal_strlit("outcome");
            assert("outcome"@.len() == 7);
            reveal_strlit("why");
            assert("why"@.len() == 3);
            document_laws::found_first(members, 0, "attempt_id"@);
            document_laws::found_first(members, 1, "outcome"@);
            document_laws::found_first(members, 2, "why"@);
        },
        WorkEventPayloadView::QuestionAsked { question } => {
            new_questions_are_told(question);
            reveal_strlit("question");
            assert("question"@.len() == 8);
            document_laws::found_first(members, 0, "question"@);
        },
        WorkEventPayloadView::QuestionAnswered { question_id, answer } => {
            reveal_strlit("question_id");
            assert("question_id"@.len() == 11);
            reveal_strlit("answer");
            assert("answer"@.len() == 6);
            document_laws::found_first(members, 0, "question_id"@);
            document_laws::found_first(members, 1, "answer"@);
        },
        WorkEventPayloadView::WorkChanged { why, operations } => {
            reveal_strlit("why");
            assert("why"@.len() == 3);
            reveal_strlit("operations");
            assert("operations"@.len() == 10);
            document_laws::found_first(members, 0, "why"@);
            document_laws::found_first(members, 1, "operations"@);
        },
        _ => {},
    }
}

/// The body of a report or of its withdrawal says which level stands under which key.
pub proof fn observation_bodies_say_all_that_is_stated(payload: ObservationEventPayloadView)
    ensures
        payload matches ObservationEventPayloadView::ObservationReported { observation }
            ==> payload.body().member("observation"@) is Some && says_report(
            payload.body().member("observation"@)->0,
            observation,
        ),
        payload matches ObservationEventPayloadView::ObservationRetired { key }
            ==> payload.body().member("key"@) is Some && says_key(
            payload.body().member("key"@)->0,
            key,
        ),
{
    let members = payload.body()->Object_0;
    match payload {
        ObservationEventPayloadView::ObservationReported { observation } => {
            reports_are_told(observation);
            document_laws::found_first(members, 0, "observation"@);
        },
        ObservationEventPayloadView::ObservationRetired { key } => {
            keys_are_told(key);
            document_laws::found_first(members, 0, "key"@);
        },
    }
}

/// The body of an instruction to the loop says the engine or the reason.
pub proof fn loop_bodies_say_all_that_is_stated(payload: LoopEventPayloadView)
    ensures
        payload matches LoopEventPayloadView::LoopPaused { why } ==> says_text(
            payload.body(),
            "why"@,
            why,
        ),
        payload matches LoopEventPayloadView::LoopRotationRequested { why } ==> says_text(
            payload.body(),
            "why"@,
            why,
        ),
        payload matches LoopEventPayloadView::LoopNudgeRequested { why } ==> says_text(
            payload.body(),
            "why"@,
            why,
        ),
        payload matches LoopEventPayloadView::LoopEngineSelected { engine }
            ==> payload.body().member("engine"@) == Some(JsonView::Text(engine)),
{
    let members = payload.body()->Object_0;
    match payload {
        LoopEventPayloadView::LoopPaused { .. } => {
            document_laws::found_first(members, 0, "why"@);
        },
        LoopEventPayloadView::LoopRotationRequested { .. } => {
            document_laws::found_first(members, 0, "why"@);
        },
        LoopEventPayloadView::LoopNudgeRequested { .. } => {
            document_laws::found_first(members, 0, "why"@);
        },
        LoopEventPayloadView::LoopEngineSelected { .. } => {
            document_laws::found_first(members, 0, "engine"@);
        },
        _ => {},
    }
}

/// The type of an event is that of its statement.
pub proof fn event_types_are_those_of_the_statements(payload: EventPayloadView)
    ensures
        payload matches EventPayloadView::Work(stated) ==> payload.body() == stated.body()
            && payload.event_type() == stated.event_type(),
        payload matches EventPayloadView::Observation(stated) ==> payload.body() == stated.body()
            && payload.event_type() == stated.event_type(),
        payload matches EventPayloadView::Loop(stated) ==> payload.body() == stated.body()
            && payload.event_type() == stated.event_type(),
{
}

/// A statement is of the type that its object and what became of it make up.
pub proof fn event_types_name_object_and_deed(
    work: WorkEventPayloadView,
    control: LoopEventPayloadView,
)
    ensures
        work is LegacyHandoffSubmitted ==> work.event_type() == "handoff.submitted"@,
        work is LegacyHandoffIntegrated ==> work.event_type() == "handoff.integrated"@,
        work is LegacyHandoffWithdrawn ==> work.event_type() == "handoff.withdrawn"@,
        work is WorkChanged ==> work.event_type() == "work.changed"@,
        work is WorkFinished ==> work.event_type() == "work.finished"@,
        work is WorkDropped ==> work.event_type() == "work.dropped"@,
        work is WorkReopened ==> work.event_type() == "work.reopened"@,
        work is AttemptStarted ==> work.event_type() == "attempt.started"@,
        work is AttemptBound ==> work.event_type() == "attempt.bound"@,
        work is AttemptUpdated ==> work.event_type() == "attempt.updated"@,
        work is AttemptEnded ==> work.event_type() == "attempt.ended"@,
        work is QuestionAsked ==> work.event_type() == "question.asked"@,
        work is QuestionAnswered ==> work.event_type() == "question.answered"@,
        control is LegacyPassStarted ==> control.event_type() == "pass.started"@,
        control is LegacyPassEnded ==> control.event_type() == "pass.ended"@,
        control is LoopPaused ==> control.event_type() == "loop.paused"@,
        control is LoopResumed ==> control.event_type() == "loop.resumed"@,
        control is LoopEngineSelected ==> control.event_type() == "loop.engine_selected"@,
        control is LoopRotationRequested ==> control.event_type() == "loop.rotation_requested"@,
        control is LoopNudgeRequested ==> control.event_type() == "loop.nudge_requested"@,
{
}

} // verus!

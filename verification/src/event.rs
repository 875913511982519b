//! Events: the facts that the log carries.

use vstd::prelude::*;

use crate::attempt::{
    AttemptDefinition, AttemptDefinitionView, AttemptOutcome, CheckUpdate, CheckUpdateView,
};
use crate::catalog::{Catalog, Replica};
use crate::instant::Instant;
use crate::json::{Json, JsonView};
use crate::observation::{ObservationEventPayload, ObservationEventPayloadView};
use crate::question::{QuestionDefinition, QuestionDefinitionView};
use crate::text::{has_text, is_text, same_text};
use crate::views;
use crate::views::{opt_replica, replicas};
use crate::work::{WorkDefinition, WorkDefinitionView, WorkOperation, WorkOperationView};

verus! {

/// A handoff, from the time when the log carried them.
#[derive(Debug, PartialEq, Eq)]
pub struct LegacyHandoffDefinition {
    pub id: String,
    pub title: String,
    pub artifact_ref: String,
    pub note: Option<String>,
}

#[verifier::ext_equal]
pub struct LegacyHandoffDefinitionView {
    pub id: Seq<char>,
    pub title: Seq<char>,
    pub artifact_ref: Seq<char>,
    pub note: Option<Seq<char>>,
}

impl View for LegacyHandoffDefinition {
    type V = LegacyHandoffDefinitionView;

    open spec fn view(&self) -> LegacyHandoffDefinitionView {
        LegacyHandoffDefinitionView {
            id: self.id@,
            title: self.title@,
            artifact_ref: self.artifact_ref@,
            note: views::opt_view(self.note),
        }
    }
}

impl Replica for LegacyHandoffDefinition {
    fn replica(&self) -> (copy: LegacyHandoffDefinition) {
        LegacyHandoffDefinition {
            id: self.id.clone(),
            title: self.title.clone(),
            artifact_ref: self.artifact_ref.clone(),
            note: opt_replica(&self.note),
        }
    }
}

/// Statements about work, attempts and questions. The handoff variants are
/// history: they replay, and nothing appends them.
#[allow(inconsistent_fields)]
#[derive(Debug, PartialEq, Eq)]
pub enum WorkEventPayload {
    LegacyHandoffSubmitted { handoff: LegacyHandoffDefinition },
    LegacyHandoffIntegrated { handoff_id: String, work: WorkDefinition },
    LegacyHandoffWithdrawn { handoff_id: String, why: String },
    WorkChanged { why: Option<String>, operations: Vec<WorkOperation> },
    WorkFinished {
        work_id: String,
        attempt_id: Option<String>,
        external: bool,
        evidence: Option<String>,
    },
    WorkDropped {
        work_id: String,
        attempt_id: Option<String>,
        outcome: Option<AttemptOutcome>,
        why: String,
    },
    WorkReopened { work_id: String, why: String },
    AttemptStarted { attempt: AttemptDefinition },
    AttemptBound { attempt_id: String, handle: String, metadata: Catalog<String, Json> },
    AttemptUpdated {
        attempt_id: String,
        tier: Option<String>,
        metadata: Catalog<String, Json>,
        note: Option<String>,
        checks: Vec<CheckUpdate>,
    },
    AttemptEnded { attempt_id: String, outcome: AttemptOutcome, why: String },
    QuestionAsked { question: QuestionDefinition },
    QuestionAnswered { question_id: String, answer: String },
}

#[allow(inconsistent_fields)]
#[verifier::ext_equal]
pub enum WorkEventPayloadView {
    LegacyHandoffSubmitted { handoff: LegacyHandoffDefinitionView },
    LegacyHandoffIntegrated { handoff_id: Seq<char>, work: WorkDefinitionView },
    LegacyHandoffWithdrawn { handoff_id: Seq<char>, why: Seq<char> },
    WorkChanged { why: Option<Seq<char>>, operations: Seq<WorkOperationView> },
    WorkFinished {
        work_id: Seq<char>,
        attempt_id: Option<Seq<char>>,
        external: bool,
        evidence: Option<Seq<char>>,
    },
    WorkDropped {
        work_id: Seq<char>,
        attempt_id: Option<Seq<char>>,
        outcome: Option<AttemptOutcome>,
        why: Seq<char>,
    },
    WorkReopened { work_id: Seq<char>, why: Seq<char> },
    AttemptStarted { attempt: AttemptDefinitionView },
    AttemptBound { attempt_id: Seq<char>, handle: Seq<char>, metadata: Map<Seq<char>, JsonView> },
    AttemptUpdated {
        attempt_id: Seq<char>,
        tier: Option<Seq<char>>,
        metadata: Map<Seq<char>, JsonView>,
        note: Option<Seq<char>>,
        checks: Seq<CheckUpdateView>,
    },
    AttemptEnded { attempt_id: Seq<char>, outcome: AttemptOutcome, why: Seq<char> },
    QuestionAsked { question: QuestionDefinitionView },
    QuestionAnswered { question_id: Seq<char>, answer: Seq<char> },
}

impl View for WorkEventPayload {
    type V = WorkEventPayloadView;

    open spec fn view(&self) -> WorkEventPayloadView {
        match self {
            WorkEventPayload::LegacyHandoffSubmitted { handoff } => {
                WorkEventPayloadView::LegacyHandoffSubmitted { handoff: handoff@ }
            },
            WorkEventPayload::LegacyHandoffIntegrated { handoff_id, work } => {
                WorkEventPayloadView::LegacyHandoffIntegrated {
                    handoff_id: handoff_id@,
                    work: work@,
                }
            },
            WorkEventPayload::LegacyHandoffWithdrawn { handoff_id, why } => {
                WorkEventPayloadView::LegacyHandoffWithdrawn { handoff_id: handoff_id@, why: why@ }
            },
            WorkEventPayload::WorkChanged { why, operations } => WorkEventPayloadView::WorkChanged {
                why: views::opt_view(*why),
                operations: views::views(operations@),
            },
            WorkEventPayload::WorkFinished { work_id, attempt_id, external, evidence } => {
                WorkEventPayloadView::WorkFinished {
                    work_id: work_id@,
                    attempt_id: views::opt_view(*attempt_id),
                    external: *external,
                    evidence: views::opt_view(*evidence),
                }
            },
            WorkEventPayload::WorkDropped { work_id, attempt_id, outcome, why } => {
                WorkEventPayloadView::WorkDropped {
                    work_id: work_id@,
                    attempt_id: views::opt_view(*attempt_id),
                    outcome: *outcome,
                    why: why@,
                }
            },
            WorkEventPayload::WorkReopened { work_id, why } => WorkEventPayloadView::WorkReopened {
                work_id: work_id@,
                why: why@,
            },
            WorkEventPayload::AttemptStarted { attempt } => WorkEventPayloadView::AttemptStarted {
                attempt: attempt@,
            },
            WorkEventPayload::AttemptBound { attempt_id, handle, metadata } => {
                WorkEventPayloadView::AttemptBound {
                    attempt_id: attempt_id@,
                    handle: handle@,
                    metadata: metadata@,
                }
            },
            WorkEventPayload::AttemptUpdated { attempt_id, tier, metadata, note, checks } => {
                WorkEventPayloadView::AttemptUpdated {
                    attempt_id: attempt_id@,
                    tier: views::opt_view(*tier),
                    metadata: metadata@,
                    note: views::opt_view(*note),
                    checks: views::views(checks@),
                }
            },
            WorkEventPayload::AttemptEnded { attempt_id, outcome, why } => {
                WorkEventPayloadView::AttemptEnded {
                    attempt_id: attempt_id@,
                    outcome: *outcome,
                    why: why@,
                }
            },
            WorkEventPayload::QuestionAsked { question } => WorkEventPayloadView::QuestionAsked {
                question: question@,
            },
            WorkEventPayload::QuestionAnswered { question_id, answer } => {
                WorkEventPayloadView::QuestionAnswered {
                    question_id: question_id@,
                    answer: answer@,
                }
            },
        }
    }
}

impl Replica for WorkEventPayload {
    fn replica(&self) -> (copy: WorkEventPayload) {
        match self {
            WorkEventPayload::LegacyHandoffSubmitted { handoff } => {
                WorkEventPayload::LegacyHandoffSubmitted { handoff: handoff.replica() }
            },
            WorkEventPayload::LegacyHandoffIntegrated { handoff_id, work } => {
                WorkEventPayload::LegacyHandoffIntegrated {
                    handoff_id: handoff_id.clone(),
                    work: work.replica(),
                }
            },
            WorkEventPayload::LegacyHandoffWithdrawn { handoff_id, why } => {
                WorkEventPayload::LegacyHandoffWithdrawn {
                    handoff_id: handoff_id.clone(),
                    why: why.clone(),
                }
            },
            WorkEventPayload::WorkChanged { why, operations } => WorkEventPayload::WorkChanged {
                why: opt_replica(why),
                operations: replicas(operations),
            },
            WorkEventPayload::WorkFinished { work_id, attempt_id, external, evidence } => {
                WorkEventPayload::WorkFinished {
                    work_id: work_id.clone(),
                    attempt_id: opt_replica(attempt_id),
                    external: *external,
                    evidence: opt_replica(evidence),
                }
            },
            WorkEventPayload::WorkDropped { work_id, attempt_id, outcome, why } => {
                WorkEventPayload::WorkDropped {
                    work_id: work_id.clone(),
                    attempt_id: opt_replica(attempt_id),
                    outcome: *outcome,
                    why: why.clone(),
                }
            },
            WorkEventPayload::WorkReopened { work_id, why } => WorkEventPayload::WorkReopened {
                work_id: work_id.clone(),
                why: why.clone(),
            },
            WorkEventPayload::AttemptStarted { attempt } => WorkEventPayload::AttemptStarted {
                attempt: attempt.replica(),
            },
            WorkEventPayload::AttemptBound { attempt_id, handle, metadata } => {
                WorkEventPayload::AttemptBound {
                    attempt_id: attempt_id.clone(),
                    handle: handle.clone(),
                    metadata: metadata.replica(),
                }
            },
            WorkEventPayload::AttemptUpdated { attempt_id, tier, metadata, note, checks } => {
                WorkEventPayload::AttemptUpdated {
                    attempt_id: attempt_id.clone(),
                    tier: opt_replica(tier),
                    metadata: metadata.replica(),
                    note: opt_replica(note),
                    checks: replicas(checks),
                }
            },
            WorkEventPayload::AttemptEnded { attempt_id, outcome, why } => {
                WorkEventPayload::AttemptEnded {
                    attempt_id: attempt_id.clone(),
                    outcome: *outcome,
                    why: why.clone(),
                }
            },
            WorkEventPayload::QuestionAsked { question } => WorkEventPayload::QuestionAsked {
                question: question.replica(),
            },
            WorkEventPayload::QuestionAnswered { question_id, answer } => {
                WorkEventPayload::QuestionAnswered {
                    question_id: question_id.clone(),
                    answer: answer.clone(),
                }
            },
        }
    }
}

/// Statements about how the project is driven. The pass variants are history:
/// their bodies are held as they were written, and nothing appends them.
#[derive(Debug, PartialEq, Eq)]
pub enum LoopEventPayload {
    LegacyPassStarted(Json),
    LegacyPassEnded(Json),
    LoopPaused { why: Option<String> },
    LoopResumed {},
    LoopEngineSelected { engine: String },
    LoopRotationRequested { why: Option<String> },
    LoopNudgeRequested { why: Option<String> },
}

#[verifier::ext_equal]
pub enum LoopEventPayloadView {
    LegacyPassStarted(JsonView),
    LegacyPassEnded(JsonView),
    LoopPaused { why: Option<Seq<char>> },
    LoopResumed {},
    LoopEngineSelected { engine: Seq<char> },
    LoopRotationRequested { why: Option<Seq<char>> },
    LoopNudgeRequested { why: Option<Seq<char>> },
}

impl View for LoopEventPayload {
    type V = LoopEventPayloadView;

    open spec fn view(&self) -> LoopEventPayloadView {
        match self {
            LoopEventPayload::LegacyPassStarted(body) => LoopEventPayloadView::LegacyPassStarted(
                body@,
            ),
            LoopEventPayload::LegacyPassEnded(body) => LoopEventPayloadView::LegacyPassEnded(body@),
            LoopEventPayload::LoopPaused { why } => LoopEventPayloadView::LoopPaused {
                why: views::opt_view(*why),
            },
            LoopEventPayload::LoopResumed {} => LoopEventPayloadView::LoopResumed {},
            LoopEventPayload::LoopEngineSelected { engine } => {
                LoopEventPayloadView::LoopEngineSelected { engine: engine@ }
            },
            LoopEventPayload::LoopRotationRequested { why } => {
                LoopEventPayloadView::LoopRotationRequested { why: views::opt_view(*why) }
            },
            LoopEventPayload::LoopNudgeRequested { why } => {
                LoopEventPayloadView::LoopNudgeRequested { why: views::opt_view(*why) }
            },
        }
    }
}

impl Replica for LoopEventPayload {
    fn replica(&self) -> (copy: LoopEventPayload) {
        match self {
            LoopEventPayload::LegacyPassStarted(body) => LoopEventPayload::LegacyPassStarted(
                body.replica(),
            ),
            LoopEventPayload::LegacyPassEnded(body) => LoopEventPayload::LegacyPassEnded(
                body.replica(),
            ),
            LoopEventPayload::LoopPaused { why } => LoopEventPayload::LoopPaused {
                why: opt_replica(why),
            },
            LoopEventPayload::LoopResumed {} => LoopEventPayload::LoopResumed {},
            LoopEventPayload::LoopEngineSelected { engine } => {
                LoopEventPayload::LoopEngineSelected { engine: engine.clone() }
            },
            LoopEventPayload::LoopRotationRequested { why } => {
                LoopEventPayload::LoopRotationRequested { why: opt_replica(why) }
            },
            LoopEventPayload::LoopNudgeRequested { why } => LoopEventPayload::LoopNudgeRequested {
                why: opt_replica(why),
            },
        }
    }
}

/// Every statement the log can carry.
#[derive(Debug, PartialEq, Eq)]
pub enum EventPayload {
    Work(WorkEventPayload),
    Observation(ObservationEventPayload),
    Loop(LoopEventPayload),
}

#[verifier::ext_equal]
pub enum EventPayloadView {
    Work(WorkEventPayloadView),
    Observation(ObservationEventPayloadView),
    Loop(LoopEventPayloadView),
}

impl View for EventPayload {
    type V = EventPayloadView;

    open spec fn view(&self) -> EventPayloadView {
        match self {
            EventPayload::Work(body) => EventPayloadView::Work(body@),
            EventPayload::Observation(body) => EventPayloadView::Observation(body@),
            EventPayload::Loop(body) => EventPayloadView::Loop(body@),
        }
    }
}

impl Replica for EventPayload {
    fn replica(&self) -> (copy: EventPayload) {
        match self {
            EventPayload::Work(body) => EventPayload::Work(body.replica()),
            EventPayload::Observation(body) => EventPayload::Observation(body.replica()),
            EventPayload::Loop(body) => EventPayload::Loop(body.replica()),
        }
    }
}

/// A statement with its place in the log.
#[derive(Debug, PartialEq, Eq)]
pub struct Event {
    pub id: String,
    pub seq: u64,
    pub at: Instant,
    pub actor: String,
    pub payload: EventPayload,
    pub schema: String,
}

#[verifier::ext_equal]
pub struct EventView {
    pub id: Seq<char>,
    pub seq: u64,
    pub at: Instant,
    pub actor: Seq<char>,
    pub payload: EventPayloadView,
    pub schema: Seq<char>,
}

impl View for Event {
    type V = EventView;

    open spec fn view(&self) -> EventView {
        EventView {
            id: self.id@,
            seq: self.seq,
            at: self.at,
            actor: self.actor@,
            payload: self.payload@,
            schema: self.schema@,
        }
    }
}

impl Replica for Event {
    fn replica(&self) -> (copy: Event) {
        Event {
            id: self.id.clone(),
            seq: self.seq,
            at: self.at,
            actor: self.actor.clone(),
            payload: self.payload.replica(),
            schema: self.schema.clone(),
        }
    }
}

/// A statement that has no place in the log yet.
#[derive(Debug, PartialEq, Eq)]
pub struct EventDraft {
    pub id: String,
    pub at: Instant,
    pub actor: String,
    pub payload: EventPayload,
    pub schema: String,
}

#[verifier::ext_equal]
pub struct EventDraftView {
    pub id: Seq<char>,
    pub at: Instant,
    pub actor: Seq<char>,
    pub payload: EventPayloadView,
    pub schema: Seq<char>,
}

impl View for EventDraft {
    type V = EventDraftView;

    open spec fn view(&self) -> EventDraftView {
        EventDraftView {
            id: self.id@,
            at: self.at,
            actor: self.actor@,
            payload: self.payload@,
            schema: self.schema@,
        }
    }
}

impl Replica for EventDraft {
    fn replica(&self) -> (copy: EventDraft) {
        EventDraft {
            id: self.id.clone(),
            at: self.at,
            actor: self.actor.clone(),
            payload: self.payload.replica(),
            schema: self.schema.clone(),
        }
    }
}

/// How the loop is wanted. The last pause and engine statements count;
/// rotation and nudge requests are the sequence they were last asked at.
#[derive(Debug, PartialEq, Eq)]
pub struct LoopControl {
    pub paused: bool,
    pub pause_reason: Option<String>,
    pub engine: Option<String>,
    pub rotate_requested_seq: Option<u64>,
    pub nudge_requested_seq: Option<u64>,
}

#[verifier::ext_equal]
pub struct LoopControlView {
    pub paused: bool,
    pub pause_reason: Option<Seq<char>>,
    pub engine: Option<Seq<char>>,
    pub rotate_requested_seq: Option<u64>,
    pub nudge_requested_seq: Option<u64>,
}

impl View for LoopControl {
    type V = LoopControlView;

    open spec fn view(&self) -> LoopControlView {
        LoopControlView {
            paused: self.paused,
            pause_reason: views::opt_view(self.pause_reason),
            engine: views::opt_view(self.engine),
            rotate_requested_seq: self.rotate_requested_seq,
            nudge_requested_seq: self.nudge_requested_seq,
        }
    }
}

impl Replica for LoopControl {
    fn replica(&self) -> (copy: LoopControl) {
        LoopControl {
            paused: self.paused,
            pause_reason: opt_replica(&self.pause_reason),
            engine: opt_replica(&self.engine),
            rotate_requested_seq: self.rotate_requested_seq,
            nudge_requested_seq: self.nudge_requested_seq,
        }
    }
}

impl WorkEventPayloadView {
    pub open spec fn event_type(self) -> Seq<char> {
        match self {
            WorkEventPayloadView::LegacyHandoffSubmitted { .. } => "handoff.submitted"@,
            WorkEventPayloadView::LegacyHandoffIntegrated { .. } => "handoff.integrated"@,
            WorkEventPayloadView::LegacyHandoffWithdrawn { .. } => "handoff.withdrawn"@,
            WorkEventPayloadView::WorkChanged { .. } => "work.changed"@,
            WorkEventPayloadView::WorkFinished { .. } => "work.finished"@,
            WorkEventPayloadView::WorkDropped { .. } => "work.dropped"@,
            WorkEventPayloadView::WorkReopened { .. } => "work.reopened"@,
            WorkEventPayloadView::AttemptStarted { .. } => "attempt.started"@,
            WorkEventPayloadView::AttemptBound { .. } => "attempt.bound"@,
            WorkEventPayloadView::AttemptUpdated { .. } => "attempt.updated"@,
            WorkEventPayloadView::AttemptEnded { .. } => "attempt.ended"@,
            WorkEventPayloadView::QuestionAsked { .. } => "question.asked"@,
            WorkEventPayloadView::QuestionAnswered { .. } => "question.answered"@,
        }
    }

    /// Whether this is history that nothing appends any more.
    pub open spec fn legacy(self) -> bool {
        ||| self is LegacyHandoffSubmitted
        ||| self is LegacyHandoffIntegrated
        ||| self is LegacyHandoffWithdrawn
    }

    /// Whether the statement names the object `id`.
    pub open spec fn names(self, id: Seq<char>) -> bool {
        match self {
            WorkEventPayloadView::LegacyHandoffSubmitted { handoff } => handoff.id == id,
            WorkEventPayloadView::LegacyHandoffIntegrated { handoff_id, work } => handoff_id == id
                || work.id == id,
            WorkEventPayloadView::LegacyHandoffWithdrawn { handoff_id, .. } => handoff_id == id,
            WorkEventPayloadView::WorkChanged { operations, .. } => any_names(operations, id),
            WorkEventPayloadView::WorkFinished { work_id, attempt_id, .. } => work_id == id
                || attempt_id == Some(id),
            WorkEventPayloadView::WorkDropped { work_id, attempt_id, .. } => work_id == id
                || attempt_id == Some(id),
            WorkEventPayloadView::WorkReopened { work_id, .. } => work_id == id,
            WorkEventPayloadView::AttemptStarted { attempt } => attempt.id == id || attempt.work_id
                == id,
            WorkEventPayloadView::AttemptBound { attempt_id, .. } => attempt_id == id,
            WorkEventPayloadView::AttemptUpdated { attempt_id, .. } => attempt_id == id,
            WorkEventPayloadView::AttemptEnded { attempt_id, .. } => attempt_id == id,
            WorkEventPayloadView::QuestionAsked { question } => question.id == id
                || question.work_id == id,
            WorkEventPayloadView::QuestionAnswered { question_id, .. } => question_id == id,
        }
    }
}

pub open spec fn any_names(operations: Seq<WorkOperationView>, id: Seq<char>) -> bool {
    exists|i: int| 0 <= i < operations.len() && operation_names(#[trigger] operations[i], id)
}

/// An operation names its target, and an added item what it requires.
pub open spec fn operation_names(operation: WorkOperationView, id: Seq<char>) -> bool {
    operation.target() == id || match operation {
        WorkOperationView::Add { work } => work.requires.contains(id),
        WorkOperationView::Edit { .. } => false,
    }
}

impl WorkEventPayload {
    pub fn event_type(&self) -> (name: &'static str)
        ensures
            name@ == self@.event_type(),
    {
        match self {
            WorkEventPayload::LegacyHandoffSubmitted { .. } => "handoff.submitted",
            WorkEventPayload::LegacyHandoffIntegrated { .. } => "handoff.integrated",
            WorkEventPayload::LegacyHandoffWithdrawn { .. } => "handoff.withdrawn",
            WorkEventPayload::WorkChanged { .. } => "work.changed",
            WorkEventPayload::WorkFinished { .. } => "work.finished",
            WorkEventPayload::WorkDropped { .. } => "work.dropped",
            WorkEventPayload::WorkReopened { .. } => "work.reopened",
            WorkEventPayload::AttemptStarted { .. } => "attempt.started",
            WorkEventPayload::AttemptBound { .. } => "attempt.bound",
            WorkEventPayload::AttemptUpdated { .. } => "attempt.updated",
            WorkEventPayload::AttemptEnded { .. } => "attempt.ended",
            WorkEventPayload::QuestionAsked { .. } => "question.asked",
            WorkEventPayload::QuestionAnswered { .. } => "question.answered",
        }
    }

    pub fn is_legacy(&self) -> (legacy: bool)
        ensures
            legacy == self@.legacy(),
    {
        match self {
            WorkEventPayload::LegacyHandoffSubmitted { .. } => true,
            WorkEventPayload::LegacyHandoffIntegrated { .. } => true,
            WorkEventPayload::LegacyHandoffWithdrawn { .. } => true,
            _ => false,
        }
    }

    /// Whether the statement names the object `id`.
    pub fn references(&self, id: &str) -> (names: bool)
        ensures
            names == self@.names(id@),
    {
        match self {
            WorkEventPayload::LegacyHandoffSubmitted { handoff } => same_text(
                handoff.id.as_str(),
                id,
            ),
            WorkEventPayload::LegacyHandoffIntegrated { handoff_id, work } => same_text(
                handoff_id.as_str(),
                id,
            ) || same_text(work.id.as_str(), id),
            WorkEventPayload::LegacyHandoffWithdrawn { handoff_id, .. } => same_text(
                handoff_id.as_str(),
                id,
            ),
            WorkEventPayload::WorkChanged { operations, .. } => any_references(operations, id),
            WorkEventPayload::WorkFinished { work_id, attempt_id, .. } => same_text(
                work_id.as_str(),
                id,
            ) || is_text(attempt_id, id),
            WorkEventPayload::WorkDropped { work_id, attempt_id, .. } => same_text(
                work_id.as_str(),
                id,
            ) || is_text(attempt_id, id),
            WorkEventPayload::WorkReopened { work_id, .. } => same_text(work_id.as_str(), id),
            WorkEventPayload::AttemptStarted { attempt } => same_text(attempt.id.as_str(), id)
                || same_text(attempt.work_id.as_str(), id),
            WorkEventPayload::AttemptBound { attempt_id, .. } => same_text(attempt_id.as_str(), id),
            WorkEventPayload::AttemptUpdated { attempt_id, .. } => same_text(
                attempt_id.as_str(),
                id,
            ),
            WorkEventPayload::AttemptEnded { attempt_id, .. } => same_text(attempt_id.as_str(), id),
            WorkEventPayload::QuestionAsked { question } => same_text(question.id.as_str(), id)
                || same_text(question.work_id.as_str(), id),
            WorkEventPayload::QuestionAnswered { question_id, .. } => same_text(
                question_id.as_str(),
                id,
            ),
        }
    }
}

fn operation_references(operation: &WorkOperation, id: &str) -> (names: bool)
    ensures
        names == operation_names(operation@, id@),
{
    if same_text(operation.id(), id) {
        return true;
    }
    match operation {
        WorkOperation::Add { work } => has_text(&work.requires, id),
        WorkOperation::Edit { .. } => false,
    }
}

fn any_references(operations: &Vec<WorkOperation>, id: &str) -> (names: bool)
    ensures
        names == any_names(views::views(operations@), id@),
{
    let ghost all = views::views(operations@);
    let mut index: usize = 0;
    while index < operations.len()
        invariant
            index <= operations@.len(),
            all == views::views(operations@),
            forall|i: int| 0 <= i < index ==> !operation_names(#[trigger] all[i], id@),
        decreases operations@.len() - index,
    {
        assert(all[index as int] == operations@[index as int]@);
        if operation_references(&operations[index], id) {
            return true;
        }
        index += 1;
    }
    false
}

impl LoopEventPayloadView {
    pub open spec fn event_type(self) -> Seq<char> {
        match self {
            LoopEventPayloadView::LegacyPassStarted(_) => "pass.started"@,
            LoopEventPayloadView::LegacyPassEnded(_) => "pass.ended"@,
            LoopEventPayloadView::LoopPaused { .. } => "loop.paused"@,
            LoopEventPayloadView::LoopResumed {} => "loop.resumed"@,
            LoopEventPayloadView::LoopEngineSelected { .. } => "loop.engine_selected"@,
            LoopEventPayloadView::LoopRotationRequested { .. } => "loop.rotation_requested"@,
            LoopEventPayloadView::LoopNudgeRequested { .. } => "loop.nudge_requested"@,
        }
    }

    pub open spec fn legacy(self) -> bool {
        self is LegacyPassStarted || self is LegacyPassEnded
    }
}

impl LoopEventPayload {
    pub fn event_type(&self) -> (name: &'static str)
        ensures
            name@ == self@.event_type(),
    {
        match self {
            LoopEventPayload::LegacyPassStarted(_) => "pass.started",
            LoopEventPayload::LegacyPassEnded(_) => "pass.ended",
            LoopEventPayload::LoopPaused { .. } => "loop.paused",
            LoopEventPayload::LoopResumed {} => "loop.resumed",
            LoopEventPayload::LoopEngineSelected { .. } => "loop.engine_selected",
            LoopEventPayload::LoopRotationRequested { .. } => "loop.rotation_requested",
            LoopEventPayload::LoopNudgeRequested { .. } => "loop.nudge_requested",
        }
    }

    pub fn is_legacy(&self) -> (legacy: bool)
        ensures
            legacy == self@.legacy(),
    {
        match self {
            LoopEventPayload::LegacyPassStarted(_) => true,
            LoopEventPayload::LegacyPassEnded(_) => true,
            _ => false,
        }
    }
}

impl From<WorkEventPayload> for EventPayload {
    fn from(payload: WorkEventPayload) -> (whole: EventPayload) {
        EventPayload::Work(payload)
    }
}

impl vstd::std_specs::convert::FromSpecImpl<WorkEventPayload> for EventPayload {
    open spec fn obeys_from_spec() -> bool {
        true
    }

    open spec fn from_spec(payload: WorkEventPayload) -> EventPayload {
        EventPayload::Work(payload)
    }
}

impl From<ObservationEventPayload> for EventPayload {
    fn from(payload: ObservationEventPayload) -> (whole: EventPayload) {
        EventPayload::Observation(payload)
    }
}

impl vstd::std_specs::convert::FromSpecImpl<ObservationEventPayload> for EventPayload {
    open spec fn obeys_from_spec() -> bool {
        true
    }

    open spec fn from_spec(payload: ObservationEventPayload) -> EventPayload {
        EventPayload::Observation(payload)
    }
}

impl From<LoopEventPayload> for EventPayload {
    fn from(payload: LoopEventPayload) -> (whole: EventPayload) {
        EventPayload::Loop(payload)
    }
}

impl vstd::std_specs::convert::FromSpecImpl<LoopEventPayload> for EventPayload {
    open spec fn obeys_from_spec() -> bool {
        true
    }

    open spec fn from_spec(payload: LoopEventPayload) -> EventPayload {
        EventPayload::Loop(payload)
    }
}

impl EventPayloadView {
    pub open spec fn event_type(self) -> Seq<char> {
        match self {
            EventPayloadView::Work(payload) => payload.event_type(),
            EventPayloadView::Observation(payload) => payload.event_type(),
            EventPayloadView::Loop(payload) => payload.event_type(),
        }
    }

    /// Whether this is history that replays but that nothing may append.
    pub open spec fn legacy(self) -> bool {
        match self {
            EventPayloadView::Work(payload) => payload.legacy(),
            EventPayloadView::Observation(_) => false,
            EventPayloadView::Loop(payload) => payload.legacy(),
        }
    }

    /// Whether the statement names the object `id`. Observations have a key
    /// and no ID, and the loop is no object, so neither names any.
    pub open spec fn names(self, id: Seq<char>) -> bool {
        match self {
            EventPayloadView::Work(payload) => payload.names(id),
            EventPayloadView::Observation(_) => false,
            EventPayloadView::Loop(_) => false,
        }
    }
}

impl EventPayload {
    pub fn event_type(&self) -> (name: &'static str)
        ensures
            name@ == self@.event_type(),
    {
        match self {
            EventPayload::Work(payload) => payload.event_type(),
            EventPayload::Observation(payload) => payload.event_type(),
            EventPayload::Loop(payload) => payload.event_type(),
        }
    }

    pub fn is_legacy(&self) -> (legacy: bool)
        ensures
            legacy == self@.legacy(),
    {
        match self {
            EventPayload::Work(payload) => payload.is_legacy(),
            EventPayload::Observation(_) => false,
            EventPayload::Loop(payload) => payload.is_legacy(),
        }
    }

    pub fn references(&self, id: &str) -> (names: bool)
        ensures
            names == self@.names(id@),
    {
        match self {
            EventPayload::Work(payload) => payload.references(id),
            EventPayload::Observation(_) => false,
            EventPayload::Loop(_) => false,
        }
    }
}

impl EventDraftView {
    /// The draft at a place in the log.
    pub open spec fn at_seq(self, seq: u64) -> EventView {
        EventView {
            id: self.id,
            seq,
            at: self.at,
            actor: self.actor,
            payload: self.payload,
            schema: self.schema,
        }
    }
}

impl EventDraft {
    /// The event that the draft becomes at a place in the log.
    pub fn materialize(&self, seq: u64) -> (event: Event)
        ensures
            event@ == self@.at_seq(seq),
    {
        Event {
            id: self.id.clone(),
            seq,
            at: self.at,
            actor: self.actor.clone(),
            payload: self.payload.replica(),
            schema: self.schema.clone(),
        }
    }
}

} // verus!

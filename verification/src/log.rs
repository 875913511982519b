//! The log of a project: every statement is tried on the project as it stands,
//! and reaches the store through one append.

use vstd::prelude::*;

use crate::attempt::{AttemptDefinition, AttemptDefinitionView, AttemptOutcome, CheckUpdate};
use crate::catalog;
use crate::catalog::{Catalog, Replica};
use crate::change;
use crate::change::{ChangeMode, GraphChangeDocument, GraphChangeDocumentView, PreparedChange};
use crate::error;
use crate::error::{AlderError, ErrorView, Result};
use crate::event::{
    Event, EventDraft, EventDraftView, EventPayload, EventPayloadView, EventView, LoopEventPayload,
    LoopEventPayloadView, WorkEventPayload, WorkEventPayloadView,
};
use crate::fold;
use crate::ids;
use crate::ids::{fresh_ulid, random_token};
use crate::instant::Instant;
use crate::json;
use crate::json::{Json, JsonView};
use crate::observation::{
    Observation, ObservationDefinition, ObservationDefinitionView, ObservationEventPayload,
    ObservationEventPayloadView, ObservationKey, ObservationKeyView,
};
use crate::project::{ProjectState, StateView};
use crate::question::{QuestionDefinition, QuestionDefinitionView};
use crate::rules;
use crate::state::{require_text, validate_observation_key};
use crate::store;
use crate::store::{AppendResult, AppendResultView, Head, HeadView, Store};
use crate::text;
use crate::text::{decimal_text, has_text, joined3, same_text};
use crate::views;
use crate::work::{
    CheckDefinition, CheckDefinitionView, WorkDefinition, WorkDefinitionView, WorkOperation,
    WorkOperationView, WorkState, WorkStateChange, WorkStateChangeView,
};

verus! {

/// How often an ID is drawn before a command gives up.
pub const ID_ALLOCATION_ATTEMPTS: usize = 16;

/// How often an observation is tried against a log that moves.
pub const OBSERVATION_APPEND_ATTEMPTS: usize = 16;

/// The project at one head.
#[derive(Debug)]
pub struct Snapshot {
    pub head: Head,
    pub events: Vec<Event>,
    pub state: ProjectState,
}

#[verifier::ext_equal]
pub struct SnapshotView {
    pub head: HeadView,
    pub events: Seq<EventView>,
    pub state: StateView,
}

impl View for Snapshot {
    type V = SnapshotView;

    open spec fn view(&self) -> SnapshotView {
        SnapshotView {
            head: self.head@,
            events: views::views(self.events@),
            state: self.state@,
        }
    }
}

/// What became of an observation: a repeated report is a success that appends
/// nothing.
#[derive(Debug)]
pub enum ObservationAppend {
    Appended(Box<AppendResult>),
    Unchanged { head: Head },
}

pub enum ObservationAppendView {
    Appended(AppendResultView),
    Unchanged { head: HeadView },
}

impl View for ObservationAppend {
    type V = ObservationAppendView;

    open spec fn view(&self) -> ObservationAppendView {
        match self {
            ObservationAppend::Appended(result) => ObservationAppendView::Appended(result@),
            ObservationAppend::Unchanged { head } => ObservationAppendView::Unchanged {
                head: head@,
            },
        }
    }
}

/// Something that is told of each append once it is confirmed.
pub trait AppendHook: Sized {
    /// `after` is what being told once may make of this: anything, where nothing is
    /// said.
    open spec fn heard(&self, after: Self) -> bool {
        true
    }

    fn appended(&mut self)
        ensures
            old(self).heard(*final(self)),
    ;
}

/// Nobody is told.
#[derive(Debug, Clone, Copy)]
pub struct Quiet;

impl AppendHook for Quiet {
    fn appended(&mut self) {
    }
}

/// A project's log in a store. Work IDs begin with the prefix; the actor is who
/// speaks.
#[derive(Debug)]
pub struct ProjectLog<S, H = Quiet> {
    pub store: S,
    pub prefix: String,
    pub actor: String,
    pub on_append: H,
}

// ---- snapshots ----

/// The project that the events up to a head fold into.
pub open spec fn snapshot_of(
    prefix: Seq<char>,
    head: HeadView,
    events: Seq<EventView>,
) -> core::result::Result<SnapshotView, ErrorView> {
    match rules::folded(events) {
        Err(error) => Err(error),
        Ok(state) => match rules::foreign_key(
            catalog::listing::<String>(state.work.dom()),
            prefix,
        ) {
            Some(id) => Err(rules::prefix_error(prefix, id)),
            None => Ok(SnapshotView { head, events, state }),
        },
    }
}

pub fn snapshot_from(prefix: &str, head: Head, events: Vec<Event>) -> (outcome: Result<Snapshot>)
    ensures
        store::told(outcome) == snapshot_of(prefix@, head@, views::views(events@)),
{
    let state = match ProjectState::fold(events.as_slice()) {
        Err(error) => {
            return Err(error);
        },
        Ok(state) => state,
    };
    if let Err(error) = state.validate_prefix(prefix) {
        return Err(error);
    }
    Ok(Snapshot { head, events, state })
}

impl<S: Store, H: AppendHook> ProjectLog<S, H> {
    /// A snapshot that the store's answers may give.
    pub open spec fn snapshots(
        &self,
        answer: core::result::Result<SnapshotView, ErrorView>,
    ) -> bool {
        exists|
            head: core::result::Result<HeadView, ErrorView>,
            events: core::result::Result<Seq<EventView>, ErrorView>,
        | #[trigger]
            self.snapshots_from(head, events, answer)
    }

    /// The snapshot for given answers of the store.
    pub open spec fn snapshots_from(
        &self,
        head: core::result::Result<HeadView, ErrorView>,
        events: core::result::Result<Seq<EventView>, ErrorView>,
        answer: core::result::Result<SnapshotView, ErrorView>,
    ) -> bool {
        &&& self.store.heads(head)
        &&& match head {
            Err(error) => answer == Err::<SnapshotView, ErrorView>(error),
            Ok(at) => {
                &&& self.store.reads(at, events)
                &&& match events {
                    Err(error) => answer == Err::<SnapshotView, ErrorView>(error),
                    Ok(all) => answer == snapshot_of(self.prefix@, at, all),
                }
            },
        }
    }

    /// The project as the store has it.
    pub fn snapshot(&self) -> (outcome: Result<Snapshot>)
        ensures
            self.snapshots(store::told(outcome)),
    {
        let answer = self.store.current_head();
        let ghost head_told = store::told(answer);
        let head = match answer {
            Err(error) => {
                let outcome = Err(error);
                assert(self.snapshots_from(
                    head_told,
                    Ok::<Seq<EventView>, ErrorView>(Seq::empty()),
                    store::told(outcome),
                ));
                return outcome;
            },
            Ok(head) => head,
        };
        let answer = self.store.read_events(&head);
        let ghost events_told = store::told_events(answer);
        let outcome = match answer {
            Err(error) => Err(error),
            Ok(events) => snapshot_from(self.prefix.as_str(), head, events),
        };
        assert(self.snapshots_from(head_told, events_told, store::told(outcome)));
        outcome
    }
}

// ---- appends ----

/// The heads that an append was refused between, as the refusal gives them.
pub open spec fn conflict_heads(error: ErrorView) -> Option<(u64, u64)> {
    if error.code == "head_conflict"@ {
        match (head_seq(error.context, "expected_head"@), head_seq(
            error.context,
            "current_head"@,
        )) {
            (Some(expected), Some(observed)) => Some((expected, observed)),
            _ => None,
        }
    } else {
        None
    }
}

/// The sequence of the head under `key`.
pub open spec fn head_seq(context: JsonView, key: Seq<char>) -> Option<u64> {
    match context.member(key) {
        Some(head) => match head.member("seq"@) {
            Some(JsonView::Int(n)) => if 0 <= n <= u64::MAX {
                Some(n as u64)
            } else {
                None
            },
            _ => None,
        },
        None => None,
    }
}

/// What a writer is told that lost the race: nothing was appended, and what.
pub open spec fn lost_error(event: Seq<char>, expected: u64, observed: u64) -> ErrorView {
    error::context_error(
        "head_conflict"@,
        "nothing was appended: `"@ + event
            + "` lost the compare-and-append to another writer, which moved the shared log from "@
            + text::decimal(expected as nat) + " to "@ + text::decimal(observed as nat)
            + "; reread and run the command again"@,
        json::empty_object().with("appended"@, JsonView::Bool(false)).with(
            "current_head"@,
            JsonView::Int(observed as int),
        ).with("event"@, JsonView::Text(event)).with(
            "expected_head"@,
            JsonView::Int(expected as int),
        ),
    )
}

/// A refused append, told as what it means for the command.
pub open spec fn lost(event: Seq<char>, error: ErrorView) -> ErrorView {
    match conflict_heads(error) {
        Some((expected, observed)) => lost_error(event, expected, observed),
        None => error,
    }
}

fn read_head_seq(context: &Json, key: &str) -> (seq: Option<u64>)
    ensures
        seq == head_seq(context@, key@),
{
    match context.get(key) {
        Some(head) => match head.get("seq") {
            Some(Json::Int(n)) => if 0 <= *n && *n <= u64::MAX as i128 {
                Some(*n as u64)
            } else {
                None
            },
            _ => None,
        },
        None => None,
    }
}

/// Names the event that a losing writer did not append. Trying again is not an
/// option here: the draft was tried on one state of the project, and a log that
/// has moved is another.
pub fn lost_append(event: &str, error: AlderError) -> (told: AlderError)
    ensures
        told@ == lost(event@, error@),
{
    if !same_text(error.code.as_str(), "head_conflict") {
        return error;
    }
    match (
        read_head_seq(&error.context, "expected_head"),
        read_head_seq(&error.context, "current_head"),
    ) {
        (Some(expected), Some(observed)) => AlderError::with_context(
            "head_conflict",
            joined3(
                "nothing was appended: `",
                event,
                "` lost the compare-and-append to another writer, which moved the shared log from ",
            ).concat(decimal_text(expected).as_str()).concat(" to ").concat(
                decimal_text(observed).as_str(),
            ).concat("; reread and run the command again"),
            Json::object().with("appended", Json::Bool(false)).with(
                "current_head",
                Json::number(observed),
            ).with("event", Json::text(event)).with("expected_head", Json::number(expected)),
        ),
        _ => error,
    }
}

pub open spec fn legacy_error(event: Seq<char>) -> ErrorView {
    error::context_error(
        "legacy_event"@,
        "nothing was appended: `"@ + event + "` is decode-only history"@,
        json::empty_object().with("appended"@, JsonView::Bool(false)).with(
            "event"@,
            JsonView::Text(event),
        ),
    )
}

/// What a draft is refused with before it reaches the store: history is not
/// made again, and the project has to take the event.
pub open spec fn refusal(
    prefix: Seq<char>,
    snapshot: SnapshotView,
    draft: EventDraftView,
) -> Option<ErrorView> {
    if draft.payload.legacy() {
        Some(legacy_error(draft.payload.event_type()))
    } else {
        match rules::step(
            snapshot.state,
            draft.at_seq(store::next_seq(snapshot.head.seq as nat)),
        ) {
            Err(error) => Some(error),
            Ok(next) => match rules::foreign_key(
                catalog::listing::<String>(next.work.dom()),
                prefix,
            ) {
                Some(id) => Some(rules::prefix_error(prefix, id)),
                None => None,
            },
        }
    }
}

/// Tries a draft on the project.
pub fn try_draft(prefix: &str, snapshot: &Snapshot, draft: &EventDraft) -> (outcome: Result<()>)
    ensures
        match refusal(prefix@, snapshot@, draft@) {
            Some(error) => outcome matches Err(e) && e@ == error,
            None => outcome is Ok,
        },
{
    if draft.payload.is_legacy() {
        let event = draft.payload.event_type();
        return Err(
            AlderError::with_context(
                "legacy_event",
                joined3("nothing was appended: `", event, "` is decode-only history"),
                Json::object().with("appended", Json::Bool(false)).with(
                    "event",
                    Json::text(event),
                ),
            ),
        );
    }
    let head = snapshot.head.sequence();
    let seq: u64 = if head < u64::MAX {
        head + 1
    } else {
        u64::MAX
    };
    let candidate = draft.materialize(seq);
    let mut state = snapshot.state.replica();
    if let Err(error) = state.apply(&candidate) {
        return Err(error);
    }
    state.validate_prefix(prefix)
}

/// What the command is told of the store's answer.
pub open spec fn append_told(
    event: Seq<char>,
    answer: core::result::Result<AppendResultView, ErrorView>,
) -> core::result::Result<AppendResultView, ErrorView> {
    match answer {
        Ok(result) => Ok(result),
        Err(error) => Err(lost(event, error)),
    }
}

/// The draft of a statement.
pub open spec fn draft_of(
    id: Seq<char>,
    at: Instant,
    actor: Seq<char>,
    payload: EventPayloadView,
) -> EventDraftView {
    EventDraftView { id, at, actor, payload, schema: "alder.event.v0"@ }
}

/// What a statement is appended as, or why it is not made.
pub type Plan = core::result::Result<EventPayloadView, ErrorView>;

/// What a statement about a new object is appended as, and the object's ID.
pub type NamedPlan = core::result::Result<(EventPayloadView, Seq<char>), ErrorView>;

impl<S: Store, H: AppendHook> ProjectLog<S, H> {
    /// How the log goes from `self` to `after` when a draft is appended behind a
    /// snapshot, and what is told. The store is asked only if the project takes
    /// the draft; the hook hears of it only if the store does.
    pub open spec fn appends(
        &self,
        after: Self,
        snapshot: SnapshotView,
        draft: EventDraftView,
        outcome: core::result::Result<AppendResultView, ErrorView>,
    ) -> bool {
        match refusal(self.prefix@, snapshot, draft) {
            Some(error) => outcome == Err::<AppendResultView, ErrorView>(error) && after == *self,
            None => exists|answer: core::result::Result<AppendResultView, ErrorView>| #[trigger]
                self.answers(after, snapshot.head, draft, answer, outcome),
        }
    }

    pub open spec fn answers(
        &self,
        after: Self,
        head: HeadView,
        draft: EventDraftView,
        answer: core::result::Result<AppendResultView, ErrorView>,
        outcome: core::result::Result<AppendResultView, ErrorView>,
    ) -> bool {
        &&& self.store.appends(head, draft, answer, after.store)
        &&& outcome == append_told(draft.payload.event_type(), answer)
        &&& after.prefix == self.prefix
        &&& after.actor == self.actor
        &&& answer is Ok ==> self.on_append.heard(after.on_append)
        &&& answer is Err ==> after.on_append == self.on_append
    }

    /// A statement made behind a snapshot, with whatever event ID and time it got.
    pub open spec fn states(
        &self,
        after: Self,
        snapshot: SnapshotView,
        payload: EventPayloadView,
        outcome: core::result::Result<AppendResultView, ErrorView>,
    ) -> bool {
        exists|id: Seq<char>, at: Instant|
            ids::ulid_shaped(id) && #[trigger] self.appends(
                after,
                snapshot,
                draft_of(id, at, self.actor@, payload),
                outcome,
            )
    }

    /// A statement made behind whatever the store has, as the plan says.
    pub open spec fn says(
        &self,
        after: Self,
        plan: spec_fn(SnapshotView) -> Plan,
        outcome: core::result::Result<AppendResultView, ErrorView>,
    ) -> bool {
        exists|snapshot: core::result::Result<SnapshotView, ErrorView>| #[trigger]
            self.snapshots(snapshot) && match snapshot {
                Err(error) => outcome == Err::<AppendResultView, ErrorView>(
                    error,
                ) && after == *self,
                Ok(s) => match plan(s) {
                    Err(error) => outcome == Err::<AppendResultView, ErrorView>(error) && after
                        == *self,
                    Ok(payload) => self.states(after, s, payload, outcome),
                },
            }
    }

    /// The same of a statement about a new object, whose ID is told too.
    pub open spec fn says_of_new(
        &self,
        after: Self,
        plan: spec_fn(SnapshotView) -> NamedPlan,
        outcome: core::result::Result<(AppendResultView, Seq<char>), ErrorView>,
    ) -> bool {
        exists|snapshot: core::result::Result<SnapshotView, ErrorView>| #[trigger]
            self.snapshots(snapshot) && match snapshot {
                Err(error) => outcome == Err::<(AppendResultView, Seq<char>), ErrorView>(error)
                    && after == *self,
                Ok(s) => match plan(s) {
                    Err(error) => outcome == Err::<(AppendResultView, Seq<char>), ErrorView>(error)
                        && after == *self,
                    Ok((payload, id)) => match outcome {
                        Ok((result, told_id)) => told_id == id && self.states(
                            after,
                            s,
                            payload,
                            Ok(result),
                        ),
                        Err(error) => self.states(after, s, payload, Err(error)),
                    },
                },
            }
    }

    /// Appends a draft behind a snapshot.
    pub fn append_draft(&mut self, snapshot: &Snapshot, draft: &EventDraft) -> (outcome: Result<
        AppendResult,
    >)
        ensures
            old(self).appends(*final(self), snapshot@, draft@, store::told(outcome)),
    {
        if let Err(error) = try_draft(self.prefix.as_str(), snapshot, draft) {
            return Err(error);
        }
        let ghost before = *self;
        let answer = self.store.append(&snapshot.head, draft);
        let ghost answered = store::told(answer);
        let outcome = match answer {
            Err(error) => Err(lost_append(draft.payload.event_type(), error)),
            Ok(result) => {
                self.on_append.appended();
                Ok(result)
            },
        };
        assert(before.answers(*self, snapshot@.head, draft@, answered, store::told(outcome)));
        outcome
    }

    /// Makes a statement behind a snapshot.
    pub fn append_payload(&mut self, snapshot: &Snapshot, payload: EventPayload) -> (outcome:
        Result<AppendResult>)
        ensures
            old(self).states(*final(self), snapshot@, payload@, store::told(outcome)),
    {
        let draft = EventDraft {
            id: fresh_ulid(),
            at: Instant::now(),
            actor: self.actor.clone(),
            payload,
            schema: "alder.event.v0".to_owned(),
        };
        let ghost before = *self;
        let outcome = self.append_draft(snapshot, &draft);
        proof {
            let told_draft = draft_of(draft@.id, draft@.at, before.actor@, payload@);
            assert(draft@ =~= told_draft);
            assert(before.appends(*self, snapshot@, told_draft, store::told(outcome)));
        }
        outcome
    }
}

/// The same statement whatever the project is like.
pub open spec fn always(payload: EventPayloadView) -> spec_fn(SnapshotView) -> Plan {
    |s: SnapshotView| Ok(payload)
}

/// How many of the attempts under `keys` are at the work item.
pub open spec fn attempts_among(s: StateView, work_id: Seq<char>, keys: Seq<Seq<char>>) -> nat
    decreases keys.len(),
{
    if keys.len() == 0 {
        0
    } else {
        attempts_among(s, work_id, keys.drop_last()) + if s.attempts[keys.last()].work_id
            == work_id {
            1nat
        } else {
            0nat
        }
    }
}

/// The ID of the next attempt at a work item: they are counted from one.
pub open spec fn next_attempt_id(s: StateView, work_id: Seq<char>) -> Seq<char> {
    let count = attempts_among(s, work_id, catalog::listing::<String>(s.attempts.dom()));
    work_id + "-attempt-"@ + text::decimal(store::next_seq(count) as nat)
}

pub open spec fn questions_among(s: StateView, work_id: Seq<char>, keys: Seq<Seq<char>>) -> nat
    decreases keys.len(),
{
    if keys.len() == 0 {
        0
    } else {
        questions_among(s, work_id, keys.drop_last()) + if s.questions[keys.last()].work_id
            == work_id {
            1nat
        } else {
            0nat
        }
    }
}

/// The ID of the next question about a work item: they are counted from one.
pub open spec fn next_question_id(s: StateView, work_id: Seq<char>) -> Seq<char> {
    let count = questions_among(s, work_id, catalog::listing::<String>(s.questions.dom()));
    work_id + "-question-"@ + text::decimal(store::next_seq(count) as nat)
}

/// Those of the items that are not done.
pub open spec fn unmet(s: StateView, ids: Seq<Seq<char>>) -> Seq<Seq<char>>
    decreases ids.len(),
{
    if ids.len() == 0 {
        Seq::empty()
    } else {
        let front = unmet(s, ids.drop_last());
        if rules::done(s, ids.last()) {
            front
        } else {
            front.push(ids.last())
        }
    }
}

/// An attempt starts at ready work; a refusal says all that stands in the way.
pub open spec fn start_plan(
    s: StateView,
    work_id: Seq<char>,
    tier: Option<Seq<char>>,
    metadata: Map<Seq<char>, JsonView>,
) -> NamedPlan {
    if !s.work.contains_key(work_id) {
        Err(error::not_found_error("work"@, work_id))
    } else if rules::active_attempt(s, work_id) is Some {
        Err(
            error::context_error(
                "active_attempt"@,
                "work `"@ + work_id + "` already has an active attempt"@,
                json::empty_object().with(
                    "active_attempt_id"@,
                    JsonView::Text(rules::active_attempt(s, work_id)->0.id),
                ).with("work_id"@, JsonView::Text(work_id)),
            ),
        )
    } else if !rules::ready(s, work_id) {
        Err(
            error::context_error(
                "work_not_ready"@,
                "work `"@ + work_id + "` is not ready"@,
                json::empty_object().with(
                    "state"@,
                    JsonView::Text(s.work[work_id].state.name()),
                ).with(
                    "unmet_dependencies"@,
                    json::text_list(unmet(s, s.work[work_id].requires)),
                ).with("work_id"@, JsonView::Text(work_id)),
            ),
        )
    } else {
        let id = next_attempt_id(s, work_id);
        Ok(
            (
                EventPayloadView::Work(
                    WorkEventPayloadView::AttemptStarted {
                        attempt: AttemptDefinitionView { id, work_id, tier, metadata },
                    },
                ),
                id,
            ),
        )
    }
}

pub open spec fn ask_plan(s: StateView, work_id: Seq<char>, text: Seq<char>) -> NamedPlan {
    if !s.work.contains_key(work_id) {
        Err(error::not_found_error("work"@, work_id))
    } else {
        let id = next_question_id(s, work_id);
        Ok(
            (
                EventPayloadView::Work(
                    WorkEventPayloadView::QuestionAsked {
                        question: QuestionDefinitionView { id, work_id, text },
                    },
                ),
                id,
            ),
        )
    }
}

/// An edit that does nothing but change the state.
pub open spec fn state_edit(
    work_id: Seq<char>,
    change: WorkStateChangeView,
) -> WorkOperationView {
    WorkOperationView::Edit {
        id: work_id,
        title: None,
        spec: None,
        priority: None,
        add_requires: Seq::empty(),
        remove_requires: Seq::empty(),
        add_checks: Seq::empty(),
        remove_checks: Seq::empty(),
        state_change: Some(change),
    }
}

pub open spec fn change_reason(change: WorkStateChangeView) -> Seq<char> {
    match change {
        WorkStateChangeView::Block { reason, .. } => reason,
        WorkStateChangeView::Unblock { reason } => reason,
    }
}

pub open spec fn state_plan(
    s: StateView,
    work_id: Seq<char>,
    change: WorkStateChangeView,
) -> Plan {
    if !s.work.contains_key(work_id) {
        Err(error::not_found_error("work"@, work_id))
    } else {
        Ok(
            EventPayloadView::Work(
                WorkEventPayloadView::WorkChanged {
                    why: Some(change_reason(change)),
                    operations: seq![state_edit(work_id, change)],
                },
            ),
        )
    }
}

/// What a call about a new object has told.
pub open spec fn told_new(answer: Result<(AppendResult, String)>) -> core::result::Result<
    (AppendResultView, Seq<char>),
    ErrorView,
> {
    match answer {
        Ok((result, id)) => Ok((result@, id@)),
        Err(error) => Err(error@),
    }
}

fn count_attempts(state: &ProjectState, work_id: &str) -> (count: u64)
    ensures
        count == attempts_among(
            state@,
            work_id@,
            catalog::listing::<String>(state@.attempts.dom()),
        ),
{
    let len = state.attempts.len();
    let ghost keys = state.attempts.keys();
    let mut count: u64 = 0;
    let mut index: usize = 0;
    assert(keys.take(0) =~= Seq::<Seq<char>>::empty());
    while index < len
        invariant
            index <= len,
            len == keys.len(),
            keys == state.attempts.keys(),
            count <= index,
            count == attempts_among(state@, work_id@, keys.take(index as int)),
        decreases len - index,
    {
        assert(keys.take(index + 1).drop_last() =~= keys.take(index as int));
        if same_text(state.attempts.value_at(index).work_id.as_str(), work_id) {
            count += 1;
        }
        index += 1;
    }
    assert(keys.take(index as int) =~= keys);
    count
}

fn count_questions(state: &ProjectState, work_id: &str) -> (count: u64)
    ensures
        count == questions_among(
            state@,
            work_id@,
            catalog::listing::<String>(state@.questions.dom()),
        ),
{
    let len = state.questions.len();
    let ghost keys = state.questions.keys();
    let mut count: u64 = 0;
    let mut index: usize = 0;
    assert(keys.take(0) =~= Seq::<Seq<char>>::empty());
    while index < len
        invariant
            index <= len,
            len == keys.len(),
            keys == state.questions.keys(),
            count <= index,
            count == questions_among(state@, work_id@, keys.take(index as int)),
        decreases len - index,
    {
        assert(keys.take(index + 1).drop_last() =~= keys.take(index as int));
        if same_text(state.questions.value_at(index).work_id.as_str(), work_id) {
            count += 1;
        }
        index += 1;
    }
    assert(keys.take(index as int) =~= keys);
    count
}

fn ordinal(count: u64) -> (text: String)
    ensures
        text@ == text::decimal(store::next_seq(count as nat) as nat),
{
    if count < u64::MAX {
        decimal_text(count + 1)
    } else {
        decimal_text(u64::MAX)
    }
}

fn unmet_items(state: &ProjectState, items: &Vec<String>) -> (missing: Vec<String>)
    ensures
        views::views(missing@) == unmet(state@, views::views(items@)),
{
    let ghost ids = views::views(items@);
    let mut missing: Vec<String> = Vec::new();
    let mut index: usize = 0;
    assert(ids.take(0) =~= Seq::<Seq<char>>::empty());
    assert(views::views(missing@) =~= Seq::empty());
    while index < items.len()
        invariant
            index <= items@.len(),
            ids == views::views(items@),
            views::views(missing@) == unmet(state@, ids.take(index as int)),
        decreases items@.len() - index,
    {
        assert(ids.take(index + 1).drop_last() =~= ids.take(index as int));
        assert(ids.take(index + 1).last() == items@[index as int]@);
        let done = match state.work.get(items[index].as_str()) {
            Some(work) => match work.state {
                WorkState::Done => true,
                _ => false,
            },
            None => false,
        };
        if !done {
            let ghost before = missing@;
            missing.push(items[index].clone());
            assert(views::views(missing@) =~= views::views(before).push(items@[index as int]@));
        }
        index += 1;
    }
    assert(ids.take(index as int) =~= ids);
    missing
}

/// Plans an attempt.
pub fn plan_start(
    state: &ProjectState,
    work_id: &str,
    tier: Option<String>,
    metadata: Catalog<String, Json>,
) -> (plan: Result<(EventPayload, String)>)
    ensures
        match start_plan(state@, work_id@, views::opt_view(tier), metadata@) {
            Ok((payload, id)) => plan matches Ok((p, i)) && p@ == payload && i@ == id,
            Err(error) => plan matches Err(e) && e@ == error,
        },
{
    let work = match state.work.get(work_id) {
        None => {
            return Err(AlderError::not_found("work", work_id));
        },
        Some(work) => work,
    };
    if let Some(active) = state.active_attempt_for(work_id) {
        return Err(
            AlderError::with_context(
                "active_attempt",
                joined3("work `", work_id, "` already has an active attempt"),
                Json::object().with("active_attempt_id", Json::text(active.id.as_str())).with(
                    "work_id",
                    Json::text(work_id),
                ),
            ),
        );
    }
    if !state.is_ready(work_id) {
        let missing = unmet_items(state, &work.requires);
        return Err(
            AlderError::with_context(
                "work_not_ready",
                joined3("work `", work_id, "` is not ready"),
                Json::object().with("state", Json::text(work.state.as_str())).with(
                    "unmet_dependencies",
                    Json::texts(&missing),
                ).with("work_id", Json::text(work_id)),
            ),
        );
    }
    let id = joined3(
        work_id,
        "-attempt-",
        ordinal(count_attempts(state, work_id)).as_str(),
    );
    let attempt = AttemptDefinition {
        id: id.clone(),
        work_id: work_id.to_owned(),
        tier,
        metadata,
    };
    Ok((EventPayload::Work(WorkEventPayload::AttemptStarted { attempt }), id))
}

/// Plans a question.
pub fn plan_ask(state: &ProjectState, work_id: &str, text: String) -> (plan: Result<
    (EventPayload, String),
>)
    ensures
        match ask_plan(state@, work_id@, text@) {
            Ok((payload, id)) => plan matches Ok((p, i)) && p@ == payload && i@ == id,
            Err(error) => plan matches Err(e) && e@ == error,
        },
{
    if !state.work.contains_key(work_id) {
        return Err(AlderError::not_found("work", work_id));
    }
    let id = joined3(
        work_id,
        "-question-",
        ordinal(count_questions(state, work_id)).as_str(),
    );
    let question = QuestionDefinition { id: id.clone(), work_id: work_id.to_owned(), text };
    Ok((EventPayload::Work(WorkEventPayload::QuestionAsked { question }), id))
}

/// Plans a change between open and blocked.
pub fn plan_state_change(state: &ProjectState, work_id: &str, change: WorkStateChange) -> (plan:
    Result<EventPayload>)
    ensures
        match state_plan(state@, work_id@, change@) {
            Ok(payload) => plan matches Ok(p) && p@ == payload,
            Err(error) => plan matches Err(e) && e@ == error,
        },
{
    if !state.work.contains_key(work_id) {
        return Err(AlderError::not_found("work", work_id));
    }
    let why = match &change {
        WorkStateChange::Block { reason, .. } => reason.clone(),
        WorkStateChange::Unblock { reason } => reason.clone(),
    };
    let ghost change_view = change@;
    let mut operations: Vec<WorkOperation> = Vec::new();
    let edit = WorkOperation::Edit {
        id: work_id.to_owned(),
        title: None,
        spec: None,
        priority: None,
        add_requires: Vec::new(),
        remove_requires: Vec::new(),
        add_checks: Vec::new(),
        remove_checks: Vec::new(),
        state_change: Some(change),
    };
    assert(edit@ =~= state_edit(work_id@, change_view)) by {
        assert(edit@->add_requires =~= Seq::<Seq<char>>::empty());
        assert(edit@->remove_requires =~= Seq::<Seq<char>>::empty());
        assert(edit@->add_checks =~= Seq::<CheckDefinitionView>::empty());
        assert(edit@->remove_checks =~= Seq::<Seq<char>>::empty());
    }
    let ghost edit_view = edit@;
    operations.push(edit);
    assert(views::views(operations@) =~= seq![edit_view]);
    Ok(EventPayload::Work(WorkEventPayload::WorkChanged { why: Some(why), operations }))
}

impl<S: Store> ProjectLog<S, Quiet> {
    pub fn new(store: S, prefix: &str, actor: &str) -> (log: ProjectLog<S, Quiet>)
        ensures
            log.store == store,
            log.prefix@ == prefix@,
            log.actor@ == actor@,
    {
        ProjectLog { store, prefix: prefix.to_owned(), actor: actor.to_owned(), on_append: Quiet }
    }
}

impl<S: Store, H: AppendHook> ProjectLog<S, H> {
    /// The log, telling the hook of each append.
    pub fn with_on_append<K: AppendHook>(self, hook: K) -> (log: ProjectLog<S, K>)
        ensures
            log.store == self.store,
            log.prefix == self.prefix,
            log.actor == self.actor,
            log.on_append == hook,
    {
        ProjectLog {
            store: self.store,
            prefix: self.prefix,
            actor: self.actor,
            on_append: hook,
        }
    }

    pub fn store(&self) -> (store: &S)
        ensures
            *store == self.store,
    {
        &self.store
    }

    /// Makes a statement behind whatever the store has.
    fn say(&mut self, payload: EventPayload) -> (outcome: Result<AppendResult>)
        ensures
            old(self).says(*final(self), always(payload@), store::told(outcome)),
    {
        let ghost before = *self;
        let answer = self.snapshot();
        let ghost snapshot_told = store::told(answer);
        let outcome = match answer {
            Err(error) => Err(error),
            Ok(snapshot) => self.append_payload(&snapshot, payload),
        };
        assert(before.snapshots(snapshot_told));
        outcome
    }

    /// Appends the operations of a prepared document behind the snapshot that it
    /// was prepared on.
    pub fn commit_change(
        &mut self,
        snapshot: &Snapshot,
        document: &GraphChangeDocument,
        prepared: PreparedChange,
    ) -> (outcome: Result<AppendResult>)
        ensures
            old(self).states(
                *final(self),
                snapshot@,
                EventPayloadView::Work(
                    WorkEventPayloadView::WorkChanged {
                        why: document@.why,
                        operations: prepared@.operations,
                    },
                ),
                store::told(outcome),
            ),
    {
        self.append_payload(
            snapshot,
            EventPayload::Work(
                WorkEventPayload::WorkChanged {
                    why: views::opt_replica(&document.why),
                    operations: prepared.operations,
                },
            ),
        )
    }

    /// Starts the next attempt at a work item, and tells its ID.
    pub fn start(
        &mut self,
        work_id: &str,
        tier: Option<String>,
        metadata: Catalog<String, Json>,
    ) -> (outcome: Result<(AppendResult, String)>)
        ensures
            old(self).says_of_new(
                *final(self),
                |s: SnapshotView| start_plan(s.state, work_id@, views::opt_view(tier), metadata@),
                told_new(outcome),
            ),
    {
        let ghost before = *self;
        let ghost plan_of = |s: SnapshotView|
            start_plan(s.state, work_id@, views::opt_view(tier), metadata@);
        let answer = self.snapshot();
        let ghost snapshot_told = store::told(answer);
        assert(before.snapshots(snapshot_told));
        let snapshot = match answer {
            Err(error) => {
                return Err(error);
            },
            Ok(snapshot) => snapshot,
        };
        let (payload, id) = match plan_start(&snapshot.state, work_id, tier, metadata) {
            Err(error) => {
                return Err(error);
            },
            Ok(plan) => plan,
        };
        match self.append_payload(&snapshot, payload) {
            Err(error) => Err(error),
            Ok(result) => Ok((result, id)),
        }
    }

    /// Asks the next question about a work item, and tells its ID.
    pub fn ask(&mut self, work_id: &str, text: String) -> (outcome: Result<(AppendResult, String)>)
        ensures
            old(self).says_of_new(
                *final(self),
                |s: SnapshotView| ask_plan(s.state, work_id@, text@),
                told_new(outcome),
            ),
    {
        let ghost before = *self;
        let answer = self.snapshot();
        let ghost snapshot_told = store::told(answer);
        assert(before.snapshots(snapshot_told));
        let snapshot = match answer {
            Err(error) => {
                return Err(error);
            },
            Ok(snapshot) => snapshot,
        };
        let (payload, id) = match plan_ask(&snapshot.state, work_id, text) {
            Err(error) => {
                return Err(error);
            },
            Ok(plan) => plan,
        };
        match self.append_payload(&snapshot, payload) {
            Err(error) => Err(error),
            Ok(result) => Ok((result, id)),
        }
    }

    /// Blocks or unblocks a work item.
    pub fn set_work_state(&mut self, work_id: &str, change: WorkStateChange) -> (outcome: Result<
        AppendResult,
    >)
        ensures
            old(self).says(
                *final(self),
                |s: SnapshotView| state_plan(s.state, work_id@, change@),
                store::told(outcome),
            ),
    {
        let ghost before = *self;
        let answer = self.snapshot();
        let ghost snapshot_told = store::told(answer);
        assert(before.snapshots(snapshot_told));
        let snapshot = match answer {
            Err(error) => {
                return Err(error);
            },
            Ok(snapshot) => snapshot,
        };
        let payload = match plan_state_change(&snapshot.state, work_id, change) {
            Err(error) => {
                return Err(error);
            },
            Ok(payload) => payload,
        };
        self.append_payload(&snapshot, payload)
    }

    /// Tells the handle that an attempt runs under.
    pub fn bind_attempt(
        &mut self,
        attempt_id: &str,
        handle: String,
        metadata: Catalog<String, Json>,
    ) -> (outcome: Result<AppendResult>)
        ensures
            old(self).says(
                *final(self),
                always(
                    EventPayloadView::Work(
                        WorkEventPayloadView::AttemptBound {
                            attempt_id: attempt_id@,
                            handle: handle@,
                            metadata: metadata@,
                        },
                    ),
                ),
                store::told(outcome),
            ),
    {
        self.say(
            EventPayload::Work(
                WorkEventPayload::AttemptBound {
                    attempt_id: attempt_id.to_owned(),
                    handle,
                    metadata,
                },
            ),
        )
    }

    /// Tells how an attempt goes.
    pub fn update_attempt(
        &mut self,
        attempt_id: &str,
        tier: Option<String>,
        metadata: Catalog<String, Json>,
        note: Option<String>,
        checks: Vec<CheckUpdate>,
    ) -> (outcome: Result<AppendResult>)
        ensures
            old(self).says(
                *final(self),
                always(
                    EventPayloadView::Work(
                        WorkEventPayloadView::AttemptUpdated {
                            attempt_id: attempt_id@,
                            tier: views::opt_view(tier),
                            metadata: metadata@,
                            note: views::opt_view(note),
                            checks: views::views(checks@),
                        },
                    ),
                ),
                store::told(outcome),
            ),
    {
        self.say(
            EventPayload::Work(
                WorkEventPayload::AttemptUpdated {
                    attempt_id: attempt_id.to_owned(),
                    tier,
                    metadata,
                    note,
                    checks,
                },
            ),
        )
    }

    /// Ends an attempt without success.
    pub fn end_attempt(
        &mut self,
        attempt_id: &str,
        result: AttemptOutcome,
        why: String,
    ) -> (outcome: Result<AppendResult>)
        ensures
            old(self).says(
                *final(self),
                always(
                    EventPayloadView::Work(
                        WorkEventPayloadView::AttemptEnded {
                            attempt_id: attempt_id@,
                            outcome: result,
                            why: why@,
                        },
                    ),
                ),
                store::told(outcome),
            ),
    {
        self.say(
            EventPayload::Work(
                WorkEventPayload::AttemptEnded {
                    attempt_id: attempt_id.to_owned(),
                    outcome: result,
                    why,
                },
            ),
        )
    }

    /// Finishes work.
    pub fn finish(
        &mut self,
        work_id: &str,
        attempt_id: Option<String>,
        external: bool,
        evidence: Option<String>,
    ) -> (outcome: Result<AppendResult>)
        ensures
            old(self).says(
                *final(self),
                always(
                    EventPayloadView::Work(
                        WorkEventPayloadView::WorkFinished {
                            work_id: work_id@,
                            attempt_id: views::opt_view(attempt_id),
                            external,
                            evidence: views::opt_view(evidence),
                        },
                    ),
                ),
                store::told(outcome),
            ),
    {
        self.say(
            EventPayload::Work(
                WorkEventPayload::WorkFinished {
                    work_id: work_id.to_owned(),
                    attempt_id,
                    external,
                    evidence,
                },
            ),
        )
    }

    /// Drops work.
    pub fn drop_work(
        &mut self,
        work_id: &str,
        attempt_id: Option<String>,
        result: Option<AttemptOutcome>,
        why: String,
    ) -> (outcome: Result<AppendResult>)
        ensures
            old(self).says(
                *final(self),
                always(
                    EventPayloadView::Work(
                        WorkEventPayloadView::WorkDropped {
                            work_id: work_id@,
                            attempt_id: views::opt_view(attempt_id),
                            outcome: result,
                            why: why@,
                        },
                    ),
                ),
                store::told(outcome),
            ),
    {
        self.say(
            EventPayload::Work(
                WorkEventPayload::WorkDropped {
                    work_id: work_id.to_owned(),
                    attempt_id,
                    outcome: result,
                    why,
                },
            ),
        )
    }

    /// Reopens closed work.
    pub fn reopen(&mut self, work_id: &str, why: String) -> (outcome: Result<AppendResult>)
        ensures
            old(self).says(
                *final(self),
                always(
                    EventPayloadView::Work(
                        WorkEventPayloadView::WorkReopened { work_id: work_id@, why: why@ },
                    ),
                ),
                store::told(outcome),
            ),
    {
        self.say(
            EventPayload::Work(WorkEventPayload::WorkReopened { work_id: work_id.to_owned(), why }),
        )
    }

    /// Answers a question.
    pub fn answer(&mut self, question_id: &str, answer: String) -> (outcome: Result<AppendResult>)
        ensures
            old(self).says(
                *final(self),
                always(
                    EventPayloadView::Work(
                        WorkEventPayloadView::QuestionAnswered {
                            question_id: question_id@,
                            answer: answer@,
                        },
                    ),
                ),
                store::told(outcome),
            ),
    {
        self.say(
            EventPayload::Work(
                WorkEventPayload::QuestionAnswered { question_id: question_id.to_owned(), answer },
            ),
        )
    }

    /// Asks the loop to pause.
    pub fn pause_loop(&mut self, why: Option<String>) -> (outcome: Result<AppendResult>)
        ensures
            old(self).says(
                *final(self),
                always(
                    EventPayloadView::Loop(
                        LoopEventPayloadView::LoopPaused { why: views::opt_view(why) },
                    ),
                ),
                store::told(outcome),
            ),
    {
        self.say(EventPayload::Loop(LoopEventPayload::LoopPaused { why }))
    }

    /// Asks the loop to go on.
    pub fn resume_loop(&mut self) -> (outcome: Result<AppendResult>)
        ensures
            old(self).says(
                *final(self),
                always(EventPayloadView::Loop(LoopEventPayloadView::LoopResumed {})),
                store::told(outcome),
            ),
    {
        self.say(EventPayload::Loop(LoopEventPayload::LoopResumed {}))
    }

    /// Chooses the engine of the loop.
    pub fn select_engine(&mut self, engine: String) -> (outcome: Result<AppendResult>)
        ensures
            old(self).says(
                *final(self),
                always(
                    EventPayloadView::Loop(
                        LoopEventPayloadView::LoopEngineSelected { engine: engine@ },
                    ),
                ),
                store::told(outcome),
            ),
    {
        self.say(EventPayload::Loop(LoopEventPayload::LoopEngineSelected { engine }))
    }

    /// Asks for a rotation.
    pub fn request_rotation(&mut self, why: Option<String>) -> (outcome: Result<AppendResult>)
        ensures
            old(self).says(
                *final(self),
                always(
                    EventPayloadView::Loop(
                        LoopEventPayloadView::LoopRotationRequested { why: views::opt_view(why) },
                    ),
                ),
                store::told(outcome),
            ),
    {
        self.say(EventPayload::Loop(LoopEventPayload::LoopRotationRequested { why }))
    }

    /// Asks for a nudge.
    pub fn request_nudge(&mut self, why: Option<String>) -> (outcome: Result<AppendResult>)
        ensures
            old(self).says(
                *final(self),
                always(
                    EventPayloadView::Loop(
                        LoopEventPayloadView::LoopNudgeRequested { why: views::opt_view(why) },
                    ),
                ),
                store::told(outcome),
            ),
    {
        self.say(EventPayload::Loop(LoopEventPayload::LoopNudgeRequested { why }))
    }

}

// ---- fresh IDs ----

/// Whether no work item, old or about to be added, has the ID.
pub open spec fn id_available(s: StateView, allocated: Seq<Seq<char>>, id: Seq<char>) -> bool {
    !s.work.contains_key(id) && !allocated.contains(id)
}

/// The ID made of the first of the tokens that gives a free one.
pub open spec fn first_free(
    s: StateView,
    allocated: Seq<Seq<char>>,
    prefix: Seq<char>,
    tokens: Seq<Seq<char>>,
) -> Option<Seq<char>>
    decreases tokens.len(),
{
    if tokens.len() == 0 {
        None
    } else {
        match first_free(s, allocated, prefix, tokens.drop_last()) {
            Some(id) => Some(id),
            None => {
                let id = prefix + "-"@ + tokens.last();
                if id_available(s, allocated, id) {
                    Some(id)
                } else {
                    None
                }
            },
        }
    }
}

/// Tokens as they are drawn for one ID.
pub open spec fn drawn(tokens: Seq<Seq<char>>) -> bool {
    &&& tokens.len() == ID_ALLOCATION_ATTEMPTS
    &&& forall|i: int| 0 <= i < tokens.len() ==> ids::token_shaped(#[trigger] tokens[i])
}

pub open spec fn allocation_error(kind: Seq<char>) -> ErrorView {
    error::context_error(
        "id_allocation_failed"@,
        "could not allocate a unique "@ + kind + " ID"@,
        json::empty_object().with(
            "attempts"@,
            JsonView::Int(ID_ALLOCATION_ATTEMPTS as int),
        ).with("kind"@, JsonView::Text(kind)),
    )
}

pub open spec fn allocated_id(
    s: StateView,
    allocated: Seq<Seq<char>>,
    prefix: Seq<char>,
    tokens: Seq<Seq<char>>,
) -> core::result::Result<Seq<char>, ErrorView> {
    match first_free(s, allocated, prefix, tokens) {
        Some(id) => Ok(id),
        None => Err(allocation_error("work"@)),
    }
}

/// IDs for `n` additions, the `i`-th from the `i`-th draw.
pub open spec fn allocated_ids(
    s: StateView,
    prefix: Seq<char>,
    draws: Seq<Seq<Seq<char>>>,
    n: nat,
) -> core::result::Result<Seq<Seq<char>>, ErrorView>
    decreases n,
{
    if n == 0 {
        Ok(Seq::empty())
    } else {
        match allocated_ids(s, prefix, draws, (n - 1) as nat) {
            Err(error) => Err(error),
            Ok(front) => match allocated_id(s, front, prefix, draws[n - 1]) {
                Err(error) => Err(error),
                Ok(id) => Ok(front.push(id)),
            },
        }
    }
}

pub open spec fn all_drawn(draws: Seq<Seq<Seq<char>>>) -> bool {
    forall|i: int| 0 <= i < draws.len() ==> drawn(#[trigger] draws[i])
}

pub fn id_allocation_error(kind: &str) -> (error: AlderError)
    ensures
        error@ == allocation_error(kind@),
{
    AlderError::with_context(
        "id_allocation_failed",
        joined3("could not allocate a unique ", kind, " ID"),
        Json::object().with("attempts", Json::number(ID_ALLOCATION_ATTEMPTS as u64)).with(
            "kind",
            Json::text(kind),
        ),
    )
}

pub fn work_id_available(state: &ProjectState, allocated: &Vec<String>, id: &str) -> (available:
    bool)
    ensures
        available == id_available(state@, views::views(allocated@), id@),
{
    !state.work.contains_key(id) && !has_text(allocated, id)
}

proof fn first_free_extends(
    s: StateView,
    allocated: Seq<Seq<char>>,
    prefix: Seq<char>,
    tokens: Seq<Seq<char>>,
    n: int,
)
    requires
        0 <= n <= tokens.len(),
        first_free(s, allocated, prefix, tokens.take(n)) is Some,
    ensures
        first_free(s, allocated, prefix, tokens) == first_free(
            s,
            allocated,
            prefix,
            tokens.take(n),
        ),
    decreases tokens.len() - n,
{
    if n < tokens.len() {
        assert(tokens.take(n + 1).drop_last() =~= tokens.take(n));
        first_free_extends(s, allocated, prefix, tokens, n + 1);
    } else {
        assert(tokens.take(n) =~= tokens);
    }
}

/// The ID made of the first of the tokens that gives a free one.
pub fn pick_id(
    state: &ProjectState,
    allocated: &Vec<String>,
    prefix: &str,
    tokens: &Vec<String>,
) -> (outcome: Result<String>)
    ensures
        store::told(outcome) == allocated_id(
            state@,
            views::views(allocated@),
            prefix@,
            views::views(tokens@),
        ),
{
    let ghost all = views::views(tokens@);
    let ghost taken = views::views(allocated@);
    let mut index: usize = 0;
    assert(all.take(0) =~= Seq::<Seq<char>>::empty());
    while index < tokens.len()
        invariant
            index <= tokens@.len(),
            all == views::views(tokens@),
            taken == views::views(allocated@),
            first_free(state@, taken, prefix@, all.take(index as int)) is None,
        decreases tokens@.len() - index,
    {
        assert(all.take(index + 1).drop_last() =~= all.take(index as int));
        assert(all.take(index + 1).last() == tokens@[index as int]@);
        let id = joined3(prefix, "-", tokens[index].as_str());
        if work_id_available(state, allocated, id.as_str()) {
            proof {
                first_free_extends(state@, taken, prefix@, all, index + 1);
            }
            return Ok(id);
        }
        index += 1;
    }
    assert(all.take(index as int) =~= all);
    Err(id_allocation_error("work"))
}

/// Draws the tokens for one ID.
pub fn draw_tokens() -> (tokens: Vec<String>)
    ensures
        drawn(views::views(tokens@)),
{
    let mut tokens: Vec<String> = Vec::new();
    while tokens.len() < ID_ALLOCATION_ATTEMPTS
        invariant
            tokens@.len() <= ID_ALLOCATION_ATTEMPTS,
            forall|i: int| 0 <= i < tokens@.len() ==> ids::token_shaped((#[trigger] tokens@[i])@),
        decreases ID_ALLOCATION_ATTEMPTS - tokens@.len(),
    {
        tokens.push(random_token());
    }
    tokens
}

/// A new work item, with the ID that the tokens give it.
pub open spec fn add_plan(
    s: StateView,
    prefix: Seq<char>,
    tokens: Seq<Seq<char>>,
    work: WorkDefinitionView,
) -> NamedPlan {
    match allocated_id(s, Seq::empty(), prefix, tokens) {
        Err(error) => Err(error),
        Ok(id) => Ok(
            (
                EventPayloadView::Work(
                    WorkEventPayloadView::WorkChanged {
                        why: None,
                        operations: seq![
                            WorkOperationView::Add { work: WorkDefinitionView { id, ..work } },
                        ],
                    },
                ),
                id,
            ),
        ),
    }
}

/// Plans a new work item; the ID in the definition is not looked at.
pub fn plan_add(
    state: &ProjectState,
    prefix: &str,
    tokens: &Vec<String>,
    work: WorkDefinition,
) -> (plan: Result<(EventPayload, String)>)
    ensures
        match add_plan(state@, prefix@, views::views(tokens@), work@) {
            Ok((payload, id)) => plan matches Ok((p, i)) && p@ == payload && i@ == id,
            Err(error) => plan matches Err(e) && e@ == error,
        },
{
    let none: Vec<String> = Vec::new();
    assert(views::views(none@) =~= Seq::<Seq<char>>::empty());
    let id = match pick_id(state, &none, prefix, tokens) {
        Err(error) => {
            return Err(error);
        },
        Ok(id) => id,
    };
    let mut work = work;
    work.id = id.clone();
    let ghost work_view = work@;
    let mut operations: Vec<WorkOperation> = Vec::new();
    operations.push(WorkOperation::Add { work });
    assert(views::views(operations@) =~= seq![WorkOperationView::Add { work: work_view }]);
    Ok((EventPayload::Work(WorkEventPayload::WorkChanged { why: None, operations }), id))
}

/// IDs are drawn for the additions of a document, and it is made operations.
pub open spec fn allocation(
    prefix: Seq<char>,
    snapshot: SnapshotView,
    document: GraphChangeDocumentView,
    mode: ChangeMode,
    outcome: core::result::Result<change::PreparedChangeView, ErrorView>,
) -> bool {
    exists|draws: Seq<Seq<Seq<char>>>| #[trigger]
        all_drawn(draws) && draws.len() <= document.add.len() && match allocated_ids(
            snapshot.state,
            prefix,
            draws,
            draws.len(),
        ) {
            Err(error) => outcome == Err::<change::PreparedChangeView, ErrorView>(error),
            Ok(ids) => draws.len() == document.add.len() && outcome == change::prepared(
                snapshot.state,
                document,
                mode,
                ids,
            ),
        }
}

pub fn allocate(
    prefix: &str,
    snapshot: &Snapshot,
    document: &GraphChangeDocument,
    mode: ChangeMode,
) -> (outcome: Result<PreparedChange>)
    ensures
        allocation(prefix@, snapshot@, document@, mode, store::told(outcome)),
{
    let mut allocated: Vec<String> = Vec::new();
    let ghost mut draws: Seq<Seq<Seq<char>>> = Seq::empty();
    let mut index: usize = 0;
    assert(views::views(allocated@) =~= Seq::<Seq<char>>::empty());
    while index < document.add.len()
        invariant
            index <= document.add@.len(),
            draws.len() == index,
            allocated@.len() == index,
            all_drawn(draws),
            allocated_ids(snapshot@.state, prefix@, draws, index as nat) == Ok::<
                Seq<Seq<char>>,
                ErrorView,
            >(views::views(allocated@)),
        decreases document.add@.len() - index,
    {
        let tokens = draw_tokens();
        let ghost longer = draws.push(views::views(tokens@));
        proof {
            allocated_ids_prefix(snapshot@.state, prefix@, draws, longer, index as nat);
            assert forall|i: int| 0 <= i < longer.len() implies drawn(#[trigger] longer[i]) by {
                if i < draws.len() {
                    assert(drawn(draws[i]));
                }
            }
        }
        match pick_id(&snapshot.state, &allocated, prefix, &tokens) {
            Err(error) => {
                assert(all_drawn(longer));
                return Err(error);
            },
            Ok(id) => {
                let ghost before = allocated@;
                let ghost value = id@;
                allocated.push(id);
                assert(views::views(allocated@) =~= views::views(before).push(value));
            },
        }
        proof {
            draws = longer;
        }
        index += 1;
    }
    assert(document@.add.len() == document.add@.len());
    assert(all_drawn(draws));
    change::prepare_change(&snapshot.state, document, mode, &allocated)
}

impl<S: Store, H: AppendHook> ProjectLog<S, H> {
    /// A free work ID.
    pub fn new_work_id(&self, state: &ProjectState) -> (outcome: Result<String>)
        ensures
            exists|tokens: Seq<Seq<char>>| #[trigger]
                drawn(tokens) && store::told(outcome) == allocated_id(
                    state@,
                    Seq::empty(),
                    self.prefix@,
                    tokens,
                ),
    {
        let tokens = draw_tokens();
        let none: Vec<String> = Vec::new();
        assert(views::views(none@) =~= Seq::<Seq<char>>::empty());
        pick_id(state, &none, self.prefix.as_str(), &tokens)
    }

    /// Adds a work item under an ID made of drawn tokens.
    pub open spec fn adds(
        &self,
        after: Self,
        work: WorkDefinitionView,
        outcome: core::result::Result<(AppendResultView, Seq<char>), ErrorView>,
    ) -> bool {
        exists|tokens: Seq<Seq<char>>| #[trigger]
            drawn(tokens) && self.says_of_new(
                after,
                |s: SnapshotView| add_plan(s.state, self.prefix@, tokens, work),
                outcome,
            )
    }

    /// Adds a work item under a fresh ID, and tells the ID.
    pub fn add_work(
        &mut self,
        title: String,
        spec_text: Option<String>,
        priority: i64,
        needs: Vec<String>,
        checks: Vec<CheckDefinition>,
    ) -> (outcome: Result<(AppendResult, String)>)
        ensures
            old(self).adds(
                *final(self),
                WorkDefinitionView {
                    id: Seq::empty(),
                    title: title@,
                    spec: views::opt_view(spec_text),
                    priority,
                    requires: views::views(needs@),
                    checks: views::views(checks@),
                },
                told_new(outcome),
            ),
    {
        let ghost before = *self;
        let tokens = draw_tokens();
        let ghost token_views = views::views(tokens@);
        assert(drawn(token_views));
        let answer = self.snapshot();
        let ghost snapshot_told = store::told(answer);
        assert(before.snapshots(snapshot_told));
        let snapshot = match answer {
            Err(error) => {
                return Err(error);
            },
            Ok(snapshot) => snapshot,
        };
        let work = WorkDefinition {
            id: String::new(),
            title,
            spec: spec_text,
            priority,
            requires: needs,
            checks,
        };
        let (payload, id) = match plan_add(
            &snapshot.state,
            self.prefix.as_str(),
            &tokens,
            work,
        ) {
            Err(error) => {
                return Err(error);
            },
            Ok(plan) => plan,
        };
        match self.append_payload(&snapshot, payload) {
            Err(error) => Err(error),
            Ok(result) => Ok((result, id)),
        }
    }

    /// Turns a document into operations, its additions getting fresh IDs.
    pub fn allocate_change(
        &self,
        snapshot: &Snapshot,
        document: &GraphChangeDocument,
        mode: ChangeMode,
    ) -> (outcome: Result<PreparedChange>)
        ensures
            allocation(self.prefix@, snapshot@, document@, mode, store::told(outcome)),
    {
        allocate(self.prefix.as_str(), snapshot, document, mode)
    }
}

proof fn allocated_ids_prefix(
    s: StateView,
    prefix: Seq<char>,
    draws: Seq<Seq<Seq<char>>>,
    longer: Seq<Seq<Seq<char>>>,
    n: nat,
)
    requires
        n <= draws.len() <= longer.len(),
        forall|i: int| 0 <= i < draws.len() ==> draws[i] == longer[i],
    ensures
        allocated_ids(s, prefix, draws, n) == allocated_ids(s, prefix, longer, n),
    decreases n,
{
    if n > 0 {
        allocated_ids_prefix(s, prefix, draws, longer, (n - 1) as nat);
    }
}

// ---- observations ----

/// The statement that makes a level current, or retires a key; none where the
/// project says so already.
pub open spec fn newness(
    s: StateView,
    key: ObservationKeyView,
    level: Option<Seq<char>>,
) -> Option<ObservationEventPayloadView> {
    match level {
        Some(text) => if s.observations.contains_key(key) && s.observations[key].level == text {
            None
        } else {
            Some(
                ObservationEventPayloadView::ObservationReported {
                    observation: ObservationDefinitionView { key, level: text },
                },
            )
        },
        None => if s.observations.contains_key(key) {
            Some(ObservationEventPayloadView::ObservationRetired { key })
        } else {
            None
        },
    }
}

/// What is new in a level, held against the current observation.
pub fn newness_check(
    state: &ProjectState,
    key: &ObservationKey,
    level: &Option<String>,
) -> (payload: Option<ObservationEventPayload>)
    ensures
        views::opt_view(payload) == newness(state@, key@, views::opt_view(*level)),
{
    match (state.observations.get(key), level) {
        (Some(current), Some(text)) => if same_text(current.level.as_str(), text.as_str()) {
            None
        } else {
            Some(
                ObservationEventPayload::ObservationReported {
                    observation: ObservationDefinition {
                        key: key.replica(),
                        level: text.clone(),
                    },
                },
            )
        },
        (None, Some(text)) => Some(
            ObservationEventPayload::ObservationReported {
                observation: ObservationDefinition { key: key.replica(), level: text.clone() },
            },
        ),
        (Some(_), None) => Some(
            ObservationEventPayload::ObservationRetired { key: key.replica() },
        ),
        (None, None) => None,
    }
}

pub open spec fn key_json(key: ObservationKeyView) -> JsonView {
    json::empty_object().with("field"@, JsonView::Text(key.field)).with(
        "observer"@,
        JsonView::Text(key.observer),
    ).with("subject"@, JsonView::Text(key.subject))
}

pub fn observation_key_json(key: &ObservationKey) -> (object: Json)
    ensures
        object@ == key_json(key@),
{
    Json::object().with("field", Json::text(key.field.as_str())).with(
        "observer",
        Json::text(key.observer.as_str()),
    ).with("subject", Json::text(key.subject.as_str()))
}

pub open spec fn unsettled_error(key: ObservationKeyView, reported: bool) -> ErrorView {
    let event = if reported {
        "observation.reported"@
    } else {
        "observation.retired"@
    };
    error::context_error(
        "head_conflict"@,
        "nothing was appended: `"@ + event
            + "` could not settle after repeated concurrent appends"@,
        json::empty_object().with("appended"@, JsonView::Bool(false)).with(
            "event"@,
            JsonView::Text(event),
        ).with("key"@, key_json(key)),
    )
}

/// What is wrong with an observation before the log is looked at.
pub open spec fn observation_error(key: ObservationKeyView, level: Option<Seq<char>>) -> Option<
    ErrorView,
> {
    match rules::key_error(key) {
        Some(error) => Some(error),
        None => if level is Some && text::blank(level->0) {
            Some(rules::empty_field("observation level"@))
        } else {
            None
        },
    }
}

/// What a call about an observation may tell.
pub type Observed = core::result::Result<ObservationAppendView, ErrorView>;

impl<S: Store, H: AppendHook> ProjectLog<S, H> {
    /// How an observation settles within so many rounds: each round reads the
    /// log anew, says nothing where nothing is new, and gives way to another
    /// writer.
    pub open spec fn settles(
        &self,
        after: Self,
        key: ObservationKeyView,
        level: Option<Seq<char>>,
        rounds: nat,
        outcome: Observed,
    ) -> bool
        decreases rounds,
    {
        if rounds == 0 {
            after == *self && outcome == Err::<ObservationAppendView, ErrorView>(
                unsettled_error(key, level is Some),
            )
        } else {
            exists|snapshot: core::result::Result<SnapshotView, ErrorView>| #[trigger]
                self.snapshots(snapshot) && match snapshot {
                    Err(error) => after == *self && outcome == Err::<
                        ObservationAppendView,
                        ErrorView,
                    >(error),
                    Ok(s) => match newness(s.state, key, level) {
                        None => after == *self && outcome == Ok::<ObservationAppendView, ErrorView>(
                            ObservationAppendView::Unchanged { head: s.head },
                        ),
                        Some(payload) => exists|
                            middle: Self,
                            answer: core::result::Result<AppendResultView, ErrorView>,
                        | #[trigger]
                            self.states(middle, s, EventPayloadView::Observation(payload), answer)
                                && match answer {
                                Ok(result) => after == middle && outcome == Ok::<
                                    ObservationAppendView,
                                    ErrorView,
                                >(ObservationAppendView::Appended(result)),
                                Err(error) => if error.code == "head_conflict"@ {
                                    middle.settles(after, key, level, (rounds - 1) as nat, outcome)
                                } else {
                                    after == middle && outcome == Err::<
                                        ObservationAppendView,
                                        ErrorView,
                                    >(error)
                                },
                            },
                    },
                }
        }
    }

    pub open spec fn observes(
        &self,
        after: Self,
        key: ObservationKeyView,
        level: Option<Seq<char>>,
        outcome: Observed,
    ) -> bool {
        match observation_error(key, level) {
            Some(error) => after == *self && outcome == Err::<ObservationAppendView, ErrorView>(
                error,
            ),
            None => self.settles(after, key, level, OBSERVATION_APPEND_ATTEMPTS as nat, outcome),
        }
    }

    fn settle(&mut self, key: &ObservationKey, level: &Option<String>, rounds: usize) -> (outcome:
        Result<ObservationAppend>)
        ensures
            old(self).settles(
                *final(self),
                key@,
                views::opt_view(*level),
                rounds as nat,
                store::told(outcome),
            ),
        decreases rounds,
    {
        let ghost before = *self;
        if rounds == 0 {
            let event: &str = if level.is_some() {
                "observation.reported"
            } else {
                "observation.retired"
            };
            return Err(
                AlderError::with_context(
                    "head_conflict",
                    joined3(
                        "nothing was appended: `",
                        event,
                        "` could not settle after repeated concurrent appends",
                    ),
                    Json::object().with("appended", Json::Bool(false)).with(
                        "event",
                        Json::text(event),
                    ).with("key", observation_key_json(key)),
                ),
            );
        }
        let answer = self.snapshot();
        let ghost snapshot_told = store::told(answer);
        assert(before.snapshots(snapshot_told));
        let snapshot = match answer {
            Err(error) => {
                return Err(error);
            },
            Ok(snapshot) => snapshot,
        };
        match newness_check(&snapshot.state, key, level) {
            None => Ok(ObservationAppend::Unchanged { head: snapshot.head }),
            Some(payload) => {
                let ghost payload_view = EventPayloadView::Observation(payload@);
                let answer = self.append_payload(&snapshot, EventPayload::Observation(payload));
                let ghost middle = *self;
                let ghost answered = store::told(answer);
                assert(before.states(middle, snapshot@, payload_view, answered));
                match answer {
                    Ok(result) => Ok(ObservationAppend::Appended(Box::new(result))),
                    Err(error) => if same_text(error.code.as_str(), "head_conflict") {
                        self.settle(key, level, rounds - 1)
                    } else {
                        Err(error)
                    },
                }
            },
        }
    }

    fn append_observation(&mut self, key: ObservationKey, level: Option<String>) -> (outcome:
        Result<ObservationAppend>)
        ensures
            old(self).observes(*final(self), key@, views::opt_view(level), store::told(outcome)),
    {
        if let Err(error) = validate_observation_key(&key) {
            return Err(error);
        }
        if let Some(text) = &level {
            if let Err(error) = require_text("observation level", text.as_str()) {
                return Err(error);
            }
        }
        self.settle(&key, &level, OBSERVATION_APPEND_ATTEMPTS)
    }

    /// Records a current level, if that is news. Observers may report the same
    /// level forever; two that race settle as one event.
    pub fn report_observation(&mut self, key: ObservationKey, level: String) -> (outcome: Result<
        ObservationAppend,
    >)
        ensures
            old(self).observes(*final(self), key@, Some(level@), store::told(outcome)),
    {
        self.append_observation(key, Some(level))
    }

    /// Retires a key whose subject or field is gone. Retiring one that is not
    /// current is quiet.
    pub fn retire_observation(&mut self, key: ObservationKey) -> (outcome: Result<
        ObservationAppend,
    >)
        ensures
            old(self).observes(*final(self), key@, None, store::told(outcome)),
    {
        self.append_observation(key, None)
    }
}

} // verus!

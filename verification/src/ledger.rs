//! The plain ledger: statements reach the store as they are, and what the store
//! says is told as it is.

use vstd::prelude::*;

use crate::attempt::{AttemptOutcome, CheckUpdate};
use crate::catalog::{Catalog, Replica};
use crate::change::{ChangeMode, GraphChangeDocument, PreparedChange};
use crate::error::{ErrorView, Result};
use crate::event::{
    EventDraft, EventDraftView, EventPayload, EventPayloadView, EventView, WorkEventPayload,
    WorkEventPayloadView,
};
use crate::ids;
use crate::ids::fresh_ulid;
use crate::instant::Instant;
use crate::json::Json;
use crate::log;
use crate::log::{
    draw_tokens, plan_add, plan_ask, plan_start, snapshot_from, try_draft, Snapshot, SnapshotView,
};
use crate::store;
use crate::store::{AppendResult, AppendResultView, HeadView, Store};
use crate::views;
use crate::views::opt_replica;
use crate::work::{CheckDefinition, WorkDefinition, WorkDefinitionView};

verus! {

/// A store, the prefix of the project's work, and who speaks.
#[derive(Debug)]
pub struct Ledger<S> {
    pub store: S,
    pub prefix: String,
    pub actor: String,
}

impl<S: Store> Ledger<S> {
    pub fn new(store: S, prefix: &str, actor: &str) -> (ledger: Ledger<S>)
        ensures
            ledger.store == store,
            ledger.prefix@ == prefix@,
            ledger.actor@ == actor@,
    {
        Ledger { store, prefix: prefix.to_owned(), actor: actor.to_owned() }
    }

    pub fn store(&self) -> (store: &S)
        ensures
            *store == self.store,
    {
        &self.store
    }

    /// What a look at the project may come to.
    pub open spec fn snapshots(
        &self,
        answer: core::result::Result<SnapshotView, ErrorView>,
    ) -> bool {
        exists|
            head: core::result::Result<HeadView, ErrorView>,
            events: core::result::Result<Seq<EventView>, ErrorView>,
        | #[trigger]
            self.snapshots_from(head, events, answer)
    }

    pub open spec fn snapshots_from(
        &self,
        head: core::result::Result<HeadView, ErrorView>,
        events: core::result::Result<Seq<EventView>, ErrorView>,
        answer: core::result::Result<SnapshotView, ErrorView>,
    ) -> bool {
        &&& self.store.heads(head)
        &&& match head {
            Err(error) => answer == Err::<SnapshotView, ErrorView>(error),
            Ok(at) => {
                &&& self.store.reads(at, events)
                &&& match events {
                    Err(error) => answer == Err::<SnapshotView, ErrorView>(error),
                    Ok(all) => answer == log::snapshot_of(self.prefix@, at, all),
                }
            },
        }
    }

    pub fn snapshot(&self) -> (outcome: Result<Snapshot>)
        ensures
            self.snapshots(store::told(outcome)),
    {
        let answer = self.store.current_head();
        let ghost head_told = store::told(answer);
        let ghost nothing: core::result::Result<Seq<EventView>, ErrorView> = Ok(Seq::empty());
        let head = match answer {
            Err(error) => {
                assert(self.snapshots_from(head_told, nothing, Err(error@)));
                return Err(error);
            },
            Ok(head) => head,
        };
        let read = self.store.read_events(&head);
        let ghost events_told = store::told_events(read);
        match read {
            Err(error) => {
                assert(self.snapshots_from(head_told, events_told, Err(error@)));
                Err(error)
            },
            Ok(events) => {
                let outcome = snapshot_from(self.prefix.as_str(), head, events);
                assert(self.snapshots_from(head_told, events_told, store::told(outcome)));
                outcome
            },
        }
    }

    /// A draft goes to the store, unless it is history or the project does not take it.
    pub open spec fn appends(
        &self,
        after: Self,
        snapshot: SnapshotView,
        draft: EventDraftView,
        outcome: core::result::Result<AppendResultView, ErrorView>,
    ) -> bool {
        match log::refusal(self.prefix@, snapshot, draft) {
            Some(error) => outcome == Err::<AppendResultView, ErrorView>(error) && after == *self,
            None => self.store.appends(snapshot.head, draft, outcome, after.store) && after.prefix
                == self.prefix && after.actor == self.actor,
        }
    }

    /// A statement is made under a new ID at the moment that the clock shows.
    pub open spec fn states(
        &self,
        after: Self,
        snapshot: SnapshotView,
        payload: EventPayloadView,
        outcome: core::result::Result<AppendResultView, ErrorView>,
    ) -> bool {
        exists|id: Seq<char>, at: Instant|
            ids::ulid_shaped(id) && #[trigger] self.appends(
                after,
                snapshot,
                log::draft_of(id, at, self.actor@, payload),
                outcome,
            )
    }

    /// A statement is planned on the project as it stands, and made.
    pub open spec fn says(
        &self,
        after: Self,
        plan: spec_fn(SnapshotView) -> log::Plan,
        outcome: core::result::Result<AppendResultView, ErrorView>,
    ) -> bool {
        exists|snapshot: core::result::Result<SnapshotView, ErrorView>| #[trigger]
            self.snapshots(snapshot) && match snapshot {
                Err(error) => outcome == Err::<AppendResultView, ErrorView>(
                    error,
                ) && after == *self,
                Ok(s) => match plan(s) {
                    Err(error) => outcome == Err::<AppendResultView, ErrorView>(error) && after
                        == *self,
                    Ok(payload) => self.states(after, s, payload, outcome),
                },
            }
    }

    /// The same of a statement about something new, which is told its ID.
    pub open spec fn says_of_new(
        &self,
        after: Self,
        plan: spec_fn(SnapshotView) -> log::NamedPlan,
        outcome: core::result::Result<(AppendResultView, Seq<char>), ErrorView>,
    ) -> bool {
        exists|snapshot: core::result::Result<SnapshotView, ErrorView>| #[trigger]
            self.snapshots(snapshot) && match snapshot {
                Err(error) => outcome == Err::<(AppendResultView, Seq<char>), ErrorView>(error)
                    && after == *self,
                Ok(s) => match plan(s) {
                    Err(error) => outcome == Err::<(AppendResultView, Seq<char>), ErrorView>(error)
                        && after == *self,
                    Ok((payload, id)) => match outcome {
                        Ok((result, told_id)) => told_id == id && self.states(
                            after,
                            s,
                            payload,
                            Ok(result),
                        ),
                        Err(error) => self.states(after, s, payload, Err(error)),
                    },
                },
            }
    }

    /// Makes a statement behind a snapshot.
    pub fn append_payload(&mut self, snapshot: &Snapshot, payload: EventPayload) -> (outcome:
        Result<AppendResult>)
        ensures
            old(self).states(*final(self), snapshot@, payload@, store::told(outcome)),
    {
        let draft = EventDraft {
            id: fresh_ulid(),
            at: Instant::now(),
            actor: self.actor.clone(),
            payload,
            schema: "alder.event.v0".to_owned(),
        };
        let ghost before = *self;
        let ghost told_draft = log::draft_of(draft@.id, draft@.at, before.actor@, payload@);
        assert(draft@ =~= told_draft);
        if let Err(error) = try_draft(self.prefix.as_str(), snapshot, &draft) {
            assert(before.appends(*self, snapshot@, told_draft, Err(error@)));
            return Err(error);
        }
        let outcome = self.store.append(&snapshot.head, &draft);
        assert(before.appends(*self, snapshot@, told_draft, store::told(outcome)));
        outcome
    }

    fn say(&mut self, payload: EventPayload) -> (outcome: Result<AppendResult>)
        ensures
            old(self).says(*final(self), log::always(payload@), store::told(outcome)),
    {
        let ghost before = *self;
        let answer = self.snapshot();
        let ghost snapshot_told = store::told(answer);
        let outcome = match answer {
            Err(error) => Err(error),
            Ok(snapshot) => self.append_payload(&snapshot, payload),
        };
        assert(before.snapshots(snapshot_told));
        outcome
    }

    /// Appends the operations of a prepared document behind the snapshot that it
    /// was prepared on.
    pub fn commit_change(
        &mut self,
        snapshot: &Snapshot,
        document: &GraphChangeDocument,
        prepared: PreparedChange,
    ) -> (outcome: Result<AppendResult>)
        ensures
            old(self).states(
                *final(self),
                snapshot@,
                EventPayloadView::Work(
                    WorkEventPayloadView::WorkChanged {
                        why: document@.why,
                        operations: prepared@.operations,
                    },
                ),
                store::told(outcome),
            ),
    {
        self.append_payload(
            snapshot,
            EventPayload::Work(
                WorkEventPayload::WorkChanged {
                    why: opt_replica(&document.why),
                    operations: prepared.operations,
                },
            ),
        )
    }

    /// Adds a work item under an ID made of drawn tokens.
    pub open spec fn adds(
        &self,
        after: Self,
        work: WorkDefinitionView,
        outcome: core::result::Result<(AppendResultView, Seq<char>), ErrorView>,
    ) -> bool {
        exists|tokens: Seq<Seq<char>>| #[trigger]
            log::drawn(tokens) && self.says_of_new(
                after,
                |s: SnapshotView| log::add_plan(s.state, self.prefix@, tokens, work),
                outcome,
            )
    }

    pub fn add_work(
        &mut self,
        title: String,
        spec_text: Option<String>,
        priority: i64,
        needs: Vec<String>,
        checks: Vec<CheckDefinition>,
    ) -> (outcome: Result<(AppendResult, String)>)
        ensures
            old(self).adds(
                *final(self),
                WorkDefinitionView {
                    id: Seq::empty(),
                    title: title@,
                    spec: views::opt_view(spec_text),
                    priority,
                    requires: views::views(needs@),
                    checks: views::views(checks@),
                },
                log::told_new(outcome),
            ),
    {
        let ghost before = *self;
        let tokens = draw_tokens();
        let ghost token_views = views::views(tokens@);
        assert(log::drawn(token_views));
        let answer = self.snapshot();
        let ghost snapshot_told = store::told(answer);
        assert(before.snapshots(snapshot_told));
        let snapshot = match answer {
            Err(error) => {
                return Err(error);
            },
            Ok(snapshot) => snapshot,
        };
        let work = WorkDefinition {
            id: String::new(),
            title,
            spec: spec_text,
            priority,
            requires: needs,
            checks,
        };
        let (payload, id) = match plan_add(&snapshot.state, self.prefix.as_str(), &tokens, work) {
            Err(error) => {
                return Err(error);
            },
            Ok(plan) => plan,
        };
        match self.append_payload(&snapshot, payload) {
            Err(error) => Err(error),
            Ok(result) => Ok((result, id)),
        }
    }

    /// Starts an attempt at work that is ready.
    pub fn start(&mut self, work_id: &str, metadata: Catalog<String, Json>) -> (outcome: Result<
        (AppendResult, String),
    >)
        ensures
            old(self).says_of_new(
                *final(self),
                |s: SnapshotView| log::start_plan(s.state, work_id@, None, metadata@),
                log::told_new(outcome),
            ),
    {
        let ghost before = *self;
        let answer = self.snapshot();
        let ghost snapshot_told = store::told(answer);
        assert(before.snapshots(snapshot_told));
        let snapshot = match answer {
            Err(error) => {
                return Err(error);
            },
            Ok(snapshot) => snapshot,
        };
        let (payload, id) = match plan_start(&snapshot.state, work_id, None, metadata) {
            Err(error) => {
                return Err(error);
            },
            Ok(plan) => plan,
        };
        match self.append_payload(&snapshot, payload) {
            Err(error) => Err(error),
            Ok(result) => Ok((result, id)),
        }
    }

    pub fn ask(&mut self, work_id: &str, text: String) -> (outcome: Result<(AppendResult, String)>)
        ensures
            old(self).says_of_new(
                *final(self),
                |s: SnapshotView| log::ask_plan(s.state, work_id@, text@),
                log::told_new(outcome),
            ),
    {
        let ghost before = *self;
        let answer = self.snapshot();
        let ghost snapshot_told = store::told(answer);
        assert(before.snapshots(snapshot_told));
        let snapshot = match answer {
            Err(error) => {
                return Err(error);
            },
            Ok(snapshot) => snapshot,
        };
        let (payload, id) = match plan_ask(&snapshot.state, work_id, text) {
            Err(error) => {
                return Err(error);
            },
            Ok(plan) => plan,
        };
        match self.append_payload(&snapshot, payload) {
            Err(error) => Err(error),
            Ok(result) => Ok((result, id)),
        }
    }

    pub fn bind_attempt(
        &mut self,
        attempt_id: &str,
        handle: String,
        metadata: Catalog<String, Json>,
    ) -> (outcome: Result<AppendResult>)
        ensures
            old(self).says(
                *final(self),
                log::always(
                    EventPayloadView::Work(
                        WorkEventPayloadView::AttemptBound {
                            attempt_id: attempt_id@,
                            handle: handle@,
                            metadata: metadata@,
                        },
                    ),
                ),
                store::told(outcome),
            ),
    {
        self.say(
            EventPayload::Work(
                WorkEventPayload::AttemptBound {
                    attempt_id: attempt_id.to_owned(),
                    handle,
                    metadata,
                },
            ),
        )
    }

    pub fn update_attempt(
        &mut self,
        attempt_id: &str,
        metadata: Catalog<String, Json>,
        note: Option<String>,
        checks: Vec<CheckUpdate>,
    ) -> (outcome: Result<AppendResult>)
        ensures
            old(self).says(
                *final(self),
                log::always(
                    EventPayloadView::Work(
                        WorkEventPayloadView::AttemptUpdated {
                            attempt_id: attempt_id@,
                            tier: None,
                            metadata: metadata@,
                            note: views::opt_view(note),
                            checks: views::views(checks@),
                        },
                    ),
                ),
                store::told(outcome),
            ),
    {
        self.say(
            EventPayload::Work(
                WorkEventPayload::AttemptUpdated {
                    attempt_id: attempt_id.to_owned(),
                    tier: None,
                    metadata,
                    note,
                    checks,
                },
            ),
        )
    }

    pub fn end_attempt(&mut self, attempt_id: &str, result: AttemptOutcome, why: String) -> (outcome:
        Result<AppendResult>)
        ensures
            old(self).says(
                *final(self),
                log::always(
                    EventPayloadView::Work(
                        WorkEventPayloadView::AttemptEnded {
                            attempt_id: attempt_id@,
                            outcome: result,
                            why: why@,
                        },
                    ),
                ),
                store::told(outcome),
            ),
    {
        self.say(
            EventPayload::Work(
                WorkEventPayload::AttemptEnded {
                    attempt_id: attempt_id.to_owned(),
                    outcome: result,
                    why,
                },
            ),
        )
    }

    pub fn finish(
        &mut self,
        work_id: &str,
        attempt_id: Option<String>,
        external: bool,
        evidence: Option<String>,
    ) -> (outcome: Result<AppendResult>)
        ensures
            old(self).says(
                *final(self),
                log::always(
                    EventPayloadView::Work(
                        WorkEventPayloadView::WorkFinished {
                            work_id: work_id@,
                            attempt_id: views::opt_view(attempt_id),
                            external,
                            evidence: views::opt_view(evidence),
                        },
                    ),
                ),
                store::told(outcome),
            ),
    {
        self.say(
            EventPayload::Work(
                WorkEventPayload::WorkFinished {
                    work_id: work_id.to_owned(),
                    attempt_id,
                    external,
                    evidence,
                },
            ),
        )
    }

    pub fn drop_work(
        &mut self,
        work_id: &str,
        attempt_id: Option<String>,
        result: Option<AttemptOutcome>,
        why: String,
    ) -> (outcome: Result<AppendResult>)
        ensures
            old(self).says(
                *final(self),
                log::always(
                    EventPayloadView::Work(
                        WorkEventPayloadView::WorkDropped {
                            work_id: work_id@,
                            attempt_id: views::opt_view(attempt_id),
                            outcome: result,
                            why: why@,
                        },
                    ),
                ),
                store::told(outcome),
            ),
    {
        self.say(
            EventPayload::Work(
                WorkEventPayload::WorkDropped {
                    work_id: work_id.to_owned(),
                    attempt_id,
                    outcome: result,
                    why,
                },
            ),
        )
    }

    pub fn reopen(&mut self, work_id: &str, why: String) -> (outcome: Result<AppendResult>)
        ensures
            old(self).says(
                *final(self),
                log::always(
                    EventPayloadView::Work(
                        WorkEventPayloadView::WorkReopened { work_id: work_id@, why: why@ },
                    ),
                ),
                store::told(outcome),
            ),
    {
        self.say(
            EventPayload::Work(
                WorkEventPayload::WorkReopened { work_id: work_id.to_owned(), why },
            ),
        )
    }

    pub fn answer(&mut self, question_id: &str, answer: String) -> (outcome: Result<AppendResult>)
        ensures
            old(self).says(
                *final(self),
                log::always(
                    EventPayloadView::Work(
                        WorkEventPayloadView::QuestionAnswered {
                            question_id: question_id@,
                            answer: answer@,
                        },
                    ),
                ),
                store::told(outcome),
            ),
    {
        self.say(
            EventPayload::Work(
                WorkEventPayload::QuestionAnswered {
                    question_id: question_id.to_owned(),
                    answer,
                },
            ),
        )
    }

    /// Draws IDs for the additions of a document, and makes it operations.
    pub fn allocate_change(
        &self,
        snapshot: &Snapshot,
        document: &GraphChangeDocument,
        mode: ChangeMode,
    ) -> (outcome: Result<PreparedChange>)
        ensures
            log::allocation(self.prefix@, snapshot@, document@, mode, store::told(outcome)),
    {
        log::allocate(self.prefix.as_str(), snapshot, document, mode)
    }
}

/// History is never made again here either: no statement of a legacy kind reaches the
/// store.
pub proof fn ledgers_make_no_history<S: Store>(
    before: Ledger<S>,
    after: Ledger<S>,
    snapshot: SnapshotView,
    payload: EventPayloadView,
    outcome: core::result::Result<AppendResultView, ErrorView>,
)
    requires
        payload.legacy(),
        before.states(after, snapshot, payload, outcome),
    ensures
        after == before,
        outcome == Err::<AppendResultView, ErrorView>(log::legacy_error(payload.event_type())),
{
}

} // verus!

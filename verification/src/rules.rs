//! The rules of the fold: what each statement does to the project, and when it
//! is refused.

use vstd::prelude::*;

use crate::attempt::{
    AttemptCheckView, AttemptDefinitionView, AttemptOutcome, AttemptState, AttemptView, CheckStatus,
    CheckUpdateView,
};
use crate::catalog;
use crate::error;
use crate::error::ErrorView;
use crate::event::{EventPayloadView, EventView, LoopEventPayloadView, WorkEventPayloadView};
use crate::graph;
use crate::instant::Instant;
use crate::json;
use crate::json::JsonView;
use crate::observation::{
    ObservationDefinitionView, ObservationEventPayloadView, ObservationKeyView, ObservationView,
};
use crate::project::StateView;
use crate::question::{QuestionAnswerView, QuestionDefinitionView, QuestionView};
use crate::sorting;
use crate::text;
use crate::work::{
    CheckDefinition, CheckDefinitionView, WorkDefinitionView, WorkOperationView, WorkState,
    WorkStateChangeView, WorkView,
};

verus! {

/// What a statement comes to: the next state, or the refusal.
pub type Outcome = core::result::Result<StateView, ErrorView>;

// ---- text ----

pub open spec fn empty_field(field: Seq<char>) -> ErrorView {
    error::validation_error(field + " cannot be empty"@)
}

/// A lower-case letter or a digit, of ASCII.
pub open spec fn name_end(c: char) -> bool {
    ('a' <= c && c <= 'z') || ('0' <= c && c <= '9')
}

/// A name: lower-case letters, digits and dashes, with no dash at an end.
pub open spec fn is_name(value: Seq<char>) -> bool {
    &&& value.len() > 0
    &&& forall|i: int| 0 <= i < value.len() ==> name_end(#[trigger] value[i]) || value[i] == '-'
    &&& name_end(value[0])
    &&& name_end(value.last())
}

/// What is wrong with an observation key.
pub open spec fn key_error(key: ObservationKeyView) -> Option<ErrorView> {
    if !is_name(key.observer) {
        Some(
            error::validation_error(
                "observation observer `"@ + key.observer + "` is not a valid name"@,
            ),
        )
    } else if !is_name(key.field) {
        Some(
            error::validation_error("observation field `"@ + key.field + "` is not a valid name"@),
        )
    } else if text::blank(key.subject) {
        Some(empty_field("observation subject"@))
    } else if key.subject.contains('\0') {
        Some(error::validation_error("observation subject cannot contain a NUL character"@))
    } else {
        None
    }
}

/// What is wrong with a check.
pub open spec fn check_error(check: CheckDefinitionView) -> Option<ErrorView> {
    if text::blank(check.key) {
        Some(empty_field("check key"@))
    } else if text::blank(check.description) {
        Some(empty_field("check description"@))
    } else if text::holds_char(check.key, |c: char| text::white(c)) || check.key.contains(':') {
        Some(
            error::validation_error(
                "check key `"@ + check.key + "` contains an invalid character"@,
            ),
        )
    } else {
        None
    }
}

/// What is wrong with the first bad one of the checks.
pub open spec fn checks_error(checks: Seq<CheckDefinitionView>) -> Option<ErrorView>
    decreases checks.len(),
{
    if checks.len() == 0 {
        None
    } else {
        match checks_error(checks.drop_last()) {
            Some(error) => Some(error),
            None => check_error(checks.last()),
        }
    }
}

// ---- questions about the state ----

/// Whether the attempt runs at the work item.
pub open spec fn runs_at(attempt: AttemptView, work_id: Seq<char>) -> bool {
    attempt.work_id == work_id && !(attempt.state is Ended)
}

pub open spec fn active_key(s: StateView, work_id: Seq<char>, key: Seq<char>) -> bool {
    s.attempts.contains_key(key) && runs_at(s.attempts[key], work_id)
}

pub open spec fn first_active_key(s: StateView, work_id: Seq<char>, key: Seq<char>) -> bool {
    &&& active_key(s, work_id, key)
    &&& forall|other: Seq<char>| #[trigger]
        active_key(s, work_id, other) ==> other == key || text::text_before(key, other)
}

/// The attempt that runs at a work item; the first one by key, were there more.
pub open spec fn active_attempt(s: StateView, work_id: Seq<char>) -> Option<AttemptView> {
    if exists|key: Seq<char>| active_key(s, work_id, key) {
        Some(s.attempts[choose|key: Seq<char>| first_active_key(s, work_id, key)])
    } else {
        None
    }
}

/// Whether the work item is there and done.
pub open spec fn done(s: StateView, id: Seq<char>) -> bool {
    s.work.contains_key(id) && s.work[id].state is Done
}

pub open spec fn all_done(s: StateView, ids: Seq<Seq<char>>) -> bool {
    forall|i: int| 0 <= i < ids.len() ==> done(s, #[trigger] ids[i])
}

/// Whether an attempt may start: the item is open, nothing runs at it, and all
/// that it requires is done.
pub open spec fn ready(s: StateView, work_id: Seq<char>) -> bool {
    &&& s.work.contains_key(work_id)
    &&& s.work[work_id].state is Open
    &&& active_attempt(s, work_id) is None
    &&& all_done(s, s.work[work_id].requires)
}

/// The ready items among those under `keys`.
pub open spec fn ready_among(s: StateView, keys: Seq<Seq<char>>) -> Seq<WorkView>
    decreases keys.len(),
{
    if keys.len() == 0 {
        Seq::empty()
    } else {
        let front = ready_among(s, keys.drop_last());
        if ready(s, s.work[keys.last()].id) {
            front.push(s.work[keys.last()])
        } else {
            front
        }
    }
}

/// The ready items: the highest priority first, then the longest open.
pub open spec fn ready_work(s: StateView) -> Seq<WorkView> {
    sorting::sorted::<&crate::work::Work>(
        ready_among(s, catalog::listing::<String>(s.work.dom())),
    )
}

/// Whether some blocked item is to be reviewed at that time.
pub open spec fn review_at(s: StateView, at: Instant) -> bool {
    exists|key: Seq<char>|
        s.work.contains_key(key) && (#[trigger] s.work[key]).state is Blocked
            && s.work[key].block_until == Some(at)
}

/// The closed state that leaves a question without anything to decide.
pub open spec fn stranded_by(s: StateView, question: QuestionView) -> Option<WorkState> {
    if s.work.contains_key(question.work_id) && s.work[question.work_id].state.terminal() {
        Some(s.work[question.work_id].state)
    } else {
        None
    }
}

/// Whether the question waits for an answer about the work item.
pub open spec fn waits(question: QuestionView, work_id: Seq<char>) -> bool {
    question.work_id == work_id && question.answer is None
}

pub open spec fn has_unanswered(s: StateView, work_id: Seq<char>) -> bool {
    exists|key: Seq<char>|
        s.questions.contains_key(key) && waits(#[trigger] s.questions[key], work_id)
}

/// The waiting questions about a work item among those under `keys`.
pub open spec fn waiting_among(
    s: StateView,
    work_id: Seq<char>,
    keys: Seq<Seq<char>>,
) -> Seq<QuestionView>
    decreases keys.len(),
{
    if keys.len() == 0 {
        Seq::empty()
    } else {
        let front = waiting_among(s, work_id, keys.drop_last());
        if waits(s.questions[keys.last()], work_id) {
            front.push(s.questions[keys.last()])
        } else {
            front
        }
    }
}

/// The waiting questions about a work item in the order they were asked.
pub open spec fn unanswered(s: StateView, work_id: Seq<char>) -> Seq<QuestionView> {
    sorting::sorted::<&crate::question::Question>(
        waiting_among(s, work_id, catalog::listing::<String>(s.questions.dom())),
    )
}

pub open spec fn unanswered_ids(s: StateView, work_id: Seq<char>) -> Seq<Seq<char>> {
    Seq::new(unanswered(s, work_id).len(), |i: int| unanswered(s, work_id)[i].id)
}

/// One item requires another directly.
pub open spec fn depends(s: StateView, id: Seq<char>, required: Seq<char>) -> bool {
    exists|key: Seq<char>|
        s.work.contains_key(key) && #[trigger] s.work[key].id == id
            && s.work[key].requires.contains(required)
}

/// A way from `from` to `to`, each step to an item that requires the one before.
pub open spec fn leads(
    s: StateView,
    from: Seq<char>,
    to: Seq<char>,
    way: Seq<Seq<char>>,
) -> bool {
    &&& way.len() >= 2
    &&& way[0] == from
    &&& way.last() == to
    &&& forall|i: int| 0 <= i < way.len() - 1 ==> #[trigger] depends(s, way[i + 1], way[i])
}

/// Whether `id` requires `work_id`, directly or through others.
pub open spec fn is_downstream(s: StateView, work_id: Seq<char>, id: Seq<char>) -> bool {
    exists|way: Seq<Seq<char>>| leads(s, work_id, id, way)
}

pub open spec fn downstream_set(s: StateView, work_id: Seq<char>) -> Set<Seq<char>> {
    Set::new(|id: Seq<char>| is_downstream(s, work_id, id))
}

/// All that requires `work_id`, directly or through others, in ascending order.
pub open spec fn downstream(s: StateView, work_id: Seq<char>) -> Seq<Seq<char>> {
    catalog::listing::<String>(downstream_set(s, work_id))
}

/// The IDs of the attempts that run at the given items.
pub open spec fn active_at(s: StateView, ids: Seq<Seq<char>>) -> Seq<Seq<char>>
    decreases ids.len(),
{
    if ids.len() == 0 {
        Seq::empty()
    } else {
        let front = active_at(s, ids.drop_last());
        match active_attempt(s, ids.last()) {
            Some(attempt) => front.push(attempt.id),
            None => front,
        }
    }
}

/// Why an item may not change under the attempts that build on it.
pub open spec fn downstream_error(s: StateView, work_id: Seq<char>) -> Option<ErrorView> {
    let active = active_at(s, downstream(s, work_id));
    if active.len() == 0 {
        None
    } else {
        Some(
            error::context_error(
                "active_downstream"@,
                "changing `"@ + work_id + "` would invalidate active downstream work"@,
                json::empty_object().with("active_attempts"@, json::text_list(active)).with(
                    "work_id"@,
                    JsonView::Text(work_id),
                ),
            ),
        )
    }
}

/// Why an attempt may not be changed: it is not there, or has ended.
pub open spec fn attempt_error(s: StateView, attempt_id: Seq<char>) -> Option<ErrorView> {
    if !s.attempts.contains_key(attempt_id) {
        Some(error::not_found_error("attempt"@, attempt_id))
    } else if s.attempts[attempt_id].state is Ended {
        Some(
            error::context_error(
                "attempt_ended"@,
                "attempt `"@ + attempt_id + "` has ended"@,
                json::empty_object().with("attempt_id"@, JsonView::Text(attempt_id)).with(
                    "outcome"@,
                    outcome_or_null(s.attempts[attempt_id].outcome),
                ),
            ),
        )
    } else {
        None
    }
}

pub open spec fn outcome_or_null(outcome: Option<AttemptOutcome>) -> JsonView {
    match outcome {
        Some(o) => JsonView::Text(o.name()),
        None => JsonView::Null,
    }
}

/// What work whose ID does not begin with the configured prefix is refused with.
pub open spec fn prefix_error(prefix: Seq<char>, id: Seq<char>) -> ErrorView {
    error::context_error(
        "config_conflict"@,
        "configured prefix `"@ + prefix + "` does not match work `"@ + id + "`"@,
        json::empty_object().with("id"@, JsonView::Text(id)).with(
            "prefix"@,
            JsonView::Text(prefix),
        ),
    )
}

/// The first of the keys that does not begin with the prefix and a dash.
pub open spec fn foreign_key(keys: Seq<Seq<char>>, prefix: Seq<char>) -> Option<Seq<char>>
    decreases keys.len(),
{
    if keys.len() == 0 {
        None
    } else {
        match foreign_key(keys.drop_last(), prefix) {
            Some(key) => Some(key),
            None => if (prefix + "-"@).is_prefix_of(keys.last()) {
                None
            } else {
                Some(keys.last())
            },
        }
    }
}

// ---- steps ----

pub open spec fn set_work(s: StateView, id: Seq<char>, work: WorkView) -> StateView {
    StateView { work: s.work.insert(id, work), ..s }
}

pub open spec fn set_attempt(s: StateView, id: Seq<char>, attempt: AttemptView) -> StateView {
    StateView { attempts: s.attempts.insert(id, attempt), ..s }
}

/// The attempt, ended at `seq`.
pub open spec fn ended(attempt: AttemptView, outcome: AttemptOutcome, seq: u64) -> AttemptView {
    AttemptView {
        state: AttemptState::Ended,
        outcome: Some(outcome),
        ended_seq: Some(seq),
        updated_seq: seq,
        ..attempt
    }
}

pub open spec fn report(s: StateView, seq: u64, observation: ObservationDefinitionView) -> Outcome {
    match key_error(observation.key) {
        Some(error) => Err(error),
        None => if text::blank(observation.level) {
            Err(empty_field("observation level"@))
        } else {
            Ok(
                StateView {
                    observations: s.observations.insert(
                        observation.key,
                        ObservationView {
                            key: observation.key,
                            level: observation.level,
                            reported_seq: seq,
                        },
                    ),
                    ..s
                },
            )
        },
    }
}

pub open spec fn retire(s: StateView, key: ObservationKeyView) -> Outcome {
    match key_error(key) {
        Some(error) => Err(error),
        None => if !s.observations.contains_key(key) {
            Err(
                error::context_error(
                    "not_found"@,
                    "observation key is not current"@,
                    json::empty_object().with("field"@, JsonView::Text(key.field)).with(
                        "observer"@,
                        JsonView::Text(key.observer),
                    ).with("subject"@, JsonView::Text(key.subject)),
                ),
            )
        } else {
            Ok(StateView { observations: s.observations.remove(key), ..s })
        },
    }
}

/// What is wrong with a new item, apart from the graph.
pub open spec fn add_error(s: StateView, work: WorkDefinitionView) -> Option<ErrorView> {
    if s.work.contains_key(work.id) {
        Some(error::validation_error("work `"@ + work.id + "` already exists"@))
    } else if text::blank(work.title) {
        Some(empty_field("work title"@))
    } else if !work.requires.no_duplicates() {
        Some(
            error::validation_error("work `"@ + work.id + "` contains duplicate dependencies"@),
        )
    } else {
        match checks_error(sorting::sorted::<CheckDefinition>(work.checks)) {
            Some(error) => Some(error),
            None => if !check_keys(work.checks).no_duplicates() {
                Some(
                    error::validation_error(
                        "work `"@ + work.id + "` contains duplicate check keys"@,
                    ),
                )
            } else {
                None
            },
        }
    }
}

pub open spec fn check_keys(checks: Seq<CheckDefinitionView>) -> Seq<Seq<char>> {
    Seq::new(checks.len(), |i: int| checks[i].key)
}

/// The item that a definition opens.
pub open spec fn opened(work: WorkDefinitionView, seq: u64) -> WorkView {
    WorkView {
        id: work.id,
        title: work.title,
        spec: work.spec,
        priority: work.priority,
        state: WorkState::Open,
        block_reason: None,
        block_until: None,
        outcome: None,
        opened_seq: seq,
        changed_seq: seq,
        requires: sorting::sorted::<String>(work.requires),
        checks: sorting::sorted::<CheckDefinition>(work.checks),
    }
}

pub open spec fn add_work(s: StateView, seq: u64, work: WorkDefinitionView) -> Outcome {
    match add_error(s, work) {
        Some(error) => Err(error),
        None => Ok(set_work(s, work.id, opened(work, seq))),
    }
}

/// The graph after a change has to hold together.
pub open spec fn with_graph(next: Outcome) -> Outcome {
    match next {
        Ok(s) => match graph::graph_error(s.work) {
            Some(error) => Err(error),
            None => Ok(s),
        },
        Err(error) => Err(error),
    }
}

/// `items` without those that are among `removed`.
pub open spec fn without(items: Seq<Seq<char>>, removed: Seq<Seq<char>>) -> Seq<Seq<char>>
    decreases items.len(),
{
    if items.len() == 0 {
        items
    } else {
        let front = without(items.drop_last(), removed);
        if removed.contains(items.last()) {
            front
        } else {
            front.push(items.last())
        }
    }
}

/// `items` and, behind them, those of `added` that are not there yet.
pub open spec fn with_added(items: Seq<Seq<char>>, added: Seq<Seq<char>>) -> Seq<Seq<char>>
    decreases added.len(),
{
    if added.len() == 0 {
        items
    } else {
        let front = with_added(items, added.drop_last());
        if front.contains(added.last()) {
            front
        } else {
            front.push(added.last())
        }
    }
}

/// `checks` without those whose key is among `removed`.
pub open spec fn checks_without(
    checks: Seq<CheckDefinitionView>,
    removed: Seq<Seq<char>>,
) -> Seq<CheckDefinitionView>
    decreases checks.len(),
{
    if checks.len() == 0 {
        checks
    } else {
        let front = checks_without(checks.drop_last(), removed);
        if removed.contains(checks.last().key) {
            front
        } else {
            front.push(checks.last())
        }
    }
}

/// `checks` with `added` behind them, or what is wrong with the first that
/// cannot be added to the item `id`.
pub open spec fn checks_added(
    checks: Seq<CheckDefinitionView>,
    added: Seq<CheckDefinitionView>,
    id: Seq<char>,
) -> core::result::Result<Seq<CheckDefinitionView>, ErrorView>
    decreases added.len(),
{
    if added.len() == 0 {
        Ok(checks)
    } else {
        match checks_added(checks, added.drop_last(), id) {
            Err(error) => Err(error),
            Ok(front) => match check_error(added.last()) {
                Some(error) => Err(error),
                None => if check_keys(front).contains(added.last().key) {
                    Err(
                        error::validation_error(
                            "check `"@ + added.last().key + "` already exists on `"@ + id + "`"@,
                        ),
                    )
                } else {
                    Ok(front.push(added.last()))
                },
            },
        }
    }
}

/// The item after a change between open and blocked, or why it is refused. A
/// block states its deadline anew each time.
pub open spec fn state_changed(
    work: WorkView,
    id: Seq<char>,
    change: Option<WorkStateChangeView>,
    waiting: bool,
) -> core::result::Result<WorkView, ErrorView> {
    match change {
        None => Ok(work),
        Some(WorkStateChangeView::Block { reason, until }) => if text::blank(reason) {
            Err(empty_field("block reason"@))
        } else {
            Ok(
                WorkView {
                    state: WorkState::Blocked,
                    block_reason: Some(reason),
                    block_until: until,
                    ..work
                },
            )
        },
        Some(WorkStateChangeView::Unblock { reason }) => if text::blank(reason) {
            Err(empty_field("unblock reason"@))
        } else if !(work.state is Blocked) {
            Err(error::validation_error("work `"@ + id + "` is not blocked"@))
        } else if waiting {
            Err(
                error::context_error(
                    "unanswered_question"@,
                    "work `"@ + id + "` has an unanswered question"@,
                    json::empty_object().with("work_id"@, JsonView::Text(id)),
                ),
            )
        } else {
            Ok(
                WorkView {
                    state: WorkState::Open,
                    block_reason: None,
                    block_until: None,
                    ..work
                },
            )
        },
    }
}

pub open spec fn or_else<T>(value: Option<T>, otherwise: T) -> T {
    match value {
        Some(v) => v,
        None => otherwise,
    }
}

pub open spec fn invalid_transition(
    message: Seq<char>,
    work_id: Seq<char>,
    state: WorkState,
) -> ErrorView {
    error::context_error(
        "invalid_transition"@,
        message,
        json::empty_object().with("state"@, JsonView::Text(state.name())).with(
            "work_id"@,
            JsonView::Text(work_id),
        ),
    )
}

/// Edits an item. Its requirements and checks stay while an attempt runs at it.
pub open spec fn edit_work(s: StateView, seq: u64, edit: WorkOperationView) -> Outcome {
    match edit {
        WorkOperationView::Edit {
            id,
            title,
            spec,
            priority,
            add_requires,
            remove_requires,
            add_checks,
            remove_checks,
            state_change,
        } => {
            let active = active_attempt(s, id);
            if active is Some && (add_requires.len() > 0 || remove_requires.len() > 0
                || add_checks.len() > 0 || remove_checks.len() > 0) {
                Err(
                    error::context_error(
                        "active_attempt"@,
                        "dependencies and checks cannot change while `"@ + active->0.id
                            + "` is active"@,
                        json::empty_object().with(
                            "attempt_id"@,
                            JsonView::Text(active->0.id),
                        ).with("work_id"@, JsonView::Text(id)),
                    ),
                )
            } else if !s.work.contains_key(id) {
                Err(error::not_found_error("work"@, id))
            } else if s.work[id].state.terminal() {
                Err(
                    invalid_transition(
                        "terminal work `"@ + id + "` must be reopened before it is edited"@,
                        id,
                        s.work[id].state,
                    ),
                )
            } else if title is Some && text::blank(title->0) {
                Err(empty_field("work title"@))
            } else {
                let work = s.work[id];
                match checks_added(checks_without(work.checks, remove_checks), add_checks, id) {
                    Err(error) => Err(error),
                    Ok(checks) => match state_changed(
                        work,
                        id,
                        state_change,
                        has_unanswered(s, id),
                    ) {
                        Err(error) => Err(error),
                        Ok(moved) => Ok(
                            set_work(
                                s,
                                id,
                                WorkView {
                                    title: or_else(title, work.title),
                                    spec: or_else(spec, work.spec),
                                    priority: or_else(priority, work.priority),
                                    requires: sorting::sorted::<String>(
                                        with_added(
                                            without(work.requires, remove_requires),
                                            add_requires,
                                        ),
                                    ),
                                    checks: sorting::sorted::<CheckDefinition>(checks),
                                    changed_seq: seq,
                                    ..moved
                                },
                            ),
                        ),
                    },
                }
            }
        },
        WorkOperationView::Add { work } => add_work(s, seq, work),
    }
}

/// The operations one after the other, up to the first that is refused.
pub open spec fn operated(s: StateView, seq: u64, operations: Seq<WorkOperationView>) -> Outcome
    decreases operations.len(),
{
    if operations.len() == 0 {
        Ok(s)
    } else {
        match operated(s, seq, operations.drop_last()) {
            Err(error) => Err(error),
            Ok(next) => edit_work(next, seq, operations.last()),
        }
    }
}

pub open spec fn targets(operations: Seq<WorkOperationView>) -> Seq<Seq<char>> {
    Seq::new(operations.len(), |i: int| operations[i].target())
}

/// The first of the texts that stands in front of itself already.
pub open spec fn first_repeat(items: Seq<Seq<char>>) -> Option<Seq<char>>
    decreases items.len(),
{
    if items.len() == 0 {
        None
    } else {
        match first_repeat(items.drop_last()) {
            Some(item) => Some(item),
            None => if items.drop_last().contains(items.last()) {
                Some(items.last())
            } else {
                None
            },
        }
    }
}

pub open spec fn targeted_twice(id: Seq<char>) -> ErrorView {
    error::validation_error("work `"@ + id + "` is targeted more than once"@)
}

/// Changes the work graph: each item once, all of it or nothing.
pub open spec fn change_work(
    s: StateView,
    seq: u64,
    operations: Seq<WorkOperationView>,
) -> Outcome {
    if operations.len() == 0 {
        Err(error::validation_error("a work change must contain at least one operation"@))
    } else {
        match first_repeat(targets(operations)) {
            Some(id) => Err(targeted_twice(id)),
            None => with_graph(operated(s, seq, operations)),
        }
    }
}

// ---- attempts ----

/// The checks of an item, all of them pending.
pub open spec fn pending(checks: Seq<CheckDefinitionView>) -> Map<Seq<char>, AttemptCheckView>
    decreases checks.len(),
{
    if checks.len() == 0 {
        Map::empty()
    } else {
        pending(checks.drop_last()).insert(
            checks.last().key,
            AttemptCheckView {
                key: checks.last().key,
                status: CheckStatus::Pending,
                evidence: None,
                updated_seq: None,
            },
        )
    }
}

pub open spec fn start_attempt(s: StateView, seq: u64, attempt: AttemptDefinitionView) -> Outcome {
    if attempt.tier is Some && text::blank(attempt.tier->0) {
        Err(empty_field("attempt tier"@))
    } else if s.attempts.contains_key(attempt.id) {
        Err(error::validation_error("attempt `"@ + attempt.id + "` already exists"@))
    } else if !s.work.contains_key(attempt.work_id) {
        Err(error::not_found_error("work"@, attempt.work_id))
    } else if !ready(s, attempt.work_id) {
        Err(
            error::context_error(
                "work_not_ready"@,
                "work `"@ + attempt.work_id + "` is not ready"@,
                json::empty_object().with("work_id"@, JsonView::Text(attempt.work_id)),
            ),
        )
    } else {
        Ok(
            set_attempt(
                s,
                attempt.id,
                AttemptView {
                    id: attempt.id,
                    work_id: attempt.work_id,
                    state: AttemptState::Starting,
                    outcome: None,
                    tier: attempt.tier,
                    handle: None,
                    metadata: attempt.metadata,
                    note: None,
                    started_seq: seq,
                    bound_seq: None,
                    updated_seq: seq,
                    ended_seq: None,
                    checks: pending(s.work[attempt.work_id].checks),
                },
            ),
        )
    }
}

/// Whether the handle belongs to an attempt that has not ended.
pub open spec fn attached(s: StateView, handle: Seq<char>) -> bool {
    exists|key: Seq<char>|
        s.attempts.contains_key(key) && !((#[trigger] s.attempts[key]).state is Ended)
            && s.attempts[key].handle == Some(handle)
}

pub open spec fn bind_attempt(
    s: StateView,
    seq: u64,
    attempt_id: Seq<char>,
    handle: Seq<char>,
    metadata: Map<Seq<char>, JsonView>,
) -> Outcome {
    if text::blank(handle) {
        Err(empty_field("attempt handle"@))
    } else if attached(s, handle) {
        Err(error::validation_error("handle `"@ + handle + "` is already attached"@))
    } else {
        match attempt_error(s, attempt_id) {
            Some(error) => Err(error),
            None => {
                let attempt = s.attempts[attempt_id];
                if attempt.handle is Some {
                    Err(
                        error::context_error(
                            "handle_already_bound"@,
                            "attempt `"@ + attempt_id + "` already has a handle"@,
                            json::empty_object().with(
                                "attempt_id"@,
                                JsonView::Text(attempt_id),
                            ).with("handle"@, json::text_or_null(attempt.handle)),
                        ),
                    )
                } else {
                    Ok(
                        set_attempt(
                            s,
                            attempt_id,
                            AttemptView {
                                handle: Some(handle),
                                state: AttemptState::Active,
                                bound_seq: Some(seq),
                                updated_seq: seq,
                                metadata: attempt.metadata.union_prefer_right(metadata),
                                ..attempt
                            },
                        ),
                    )
                }
            },
        }
    }
}

/// The checks after the verdicts, or what is wrong with the first bad verdict.
pub open spec fn judged(
    checks: Map<Seq<char>, AttemptCheckView>,
    updates: Seq<CheckUpdateView>,
    attempt_id: Seq<char>,
    seq: u64,
) -> core::result::Result<Map<Seq<char>, AttemptCheckView>, ErrorView>
    decreases updates.len(),
{
    if updates.len() == 0 {
        Ok(checks)
    } else {
        match judged(checks, updates.drop_last(), attempt_id, seq) {
            Err(error) => Err(error),
            Ok(front) => {
                let update = updates.last();
                if text::blank(update.evidence) {
                    Err(empty_field("check evidence"@))
                } else if !front.contains_key(update.key) {
                    Err(
                        error::context_error(
                            "unknown_check"@,
                            "attempt `"@ + attempt_id + "` has no check named `"@ + update.key
                                + "`"@,
                            json::empty_object().with(
                                "attempt_id"@,
                                JsonView::Text(attempt_id),
                            ).with("check"@, JsonView::Text(update.key)),
                        ),
                    )
                } else {
                    Ok(
                        front.insert(
                            update.key,
                            AttemptCheckView {
                                status: update.status,
                                evidence: Some(update.evidence),
                                updated_seq: Some(seq),
                                ..front[update.key]
                            },
                        ),
                    )
                }
            },
        }
    }
}

pub open spec fn update_attempt(
    s: StateView,
    seq: u64,
    attempt_id: Seq<char>,
    tier: Option<Seq<char>>,
    metadata: Map<Seq<char>, JsonView>,
    note: Option<Seq<char>>,
    checks: Seq<CheckUpdateView>,
) -> Outcome {
    if tier is Some && text::blank(tier->0) {
        Err(empty_field("attempt tier"@))
    } else {
        match attempt_error(s, attempt_id) {
            Some(error) => Err(error),
            None => if tier is None && metadata == Map::<Seq<char>, JsonView>::empty()
                && note is None && checks.len() == 0 {
                Err(
                    error::validation_error(
                        "an attempt update must change a tier, metadata, a note, or a check"@,
                    ),
                )
            } else {
                let attempt = s.attempts[attempt_id];
                match judged(attempt.checks, checks, attempt_id, seq) {
                    Err(error) => Err(error),
                    Ok(judged_checks) => if note is Some && text::blank(note->0) {
                        Err(empty_field("attempt note"@))
                    } else {
                        Ok(
                            set_attempt(
                                s,
                                attempt_id,
                                AttemptView {
                                    checks: judged_checks,
                                    tier: if tier is Some {
                                        tier
                                    } else {
                                        attempt.tier
                                    },
                                    metadata: attempt.metadata.union_prefer_right(metadata),
                                    note: if note is Some {
                                        note
                                    } else {
                                        attempt.note
                                    },
                                    updated_seq: seq,
                                    state: AttemptState::Active,
                                    ..attempt
                                },
                            ),
                        )
                    },
                }
            },
        }
    }
}

pub open spec fn end_attempt(
    s: StateView,
    seq: u64,
    attempt_id: Seq<char>,
    outcome: AttemptOutcome,
    why: Seq<char>,
) -> Outcome {
    if text::blank(why) {
        Err(empty_field("attempt end reason"@))
    } else if outcome is Succeeded {
        Err(error::validation_error("successful attempts are ended by finishing their work"@))
    } else {
        match attempt_error(s, attempt_id) {
            Some(error) => Err(error),
            None => Ok(set_attempt(s, attempt_id, ended(s.attempts[attempt_id], outcome, seq))),
        }
    }
}

// ---- work ----

/// The keys of the checks under `keys` that are not satisfied.
pub open spec fn incomplete_among(
    checks: Map<Seq<char>, AttemptCheckView>,
    keys: Seq<Seq<char>>,
) -> Seq<Seq<char>>
    decreases keys.len(),
{
    if keys.len() == 0 {
        Seq::empty()
    } else {
        let front = incomplete_among(checks, keys.drop_last());
        if checks[keys.last()].status is Satisfied {
            front
        } else {
            front.push(checks[keys.last()].key)
        }
    }
}

/// The keys of the checks that are not satisfied, in ascending order of entry.
pub open spec fn incomplete(checks: Map<Seq<char>, AttemptCheckView>) -> Seq<Seq<char>> {
    incomplete_among(checks, catalog::listing::<String>(checks.dom()))
}

pub open spec fn attempt_mismatch(
    work_id: Seq<char>,
    provided: Seq<char>,
    active: Seq<char>,
) -> ErrorView {
    error::context_error(
        "attempt_mismatch"@,
        "`"@ + provided + "` is not the active attempt for `"@ + work_id + "`"@,
        json::empty_object().with("active_attempt_id"@, JsonView::Text(active)).with(
            "attempt_id"@,
            JsonView::Text(provided),
        ).with("work_id"@, JsonView::Text(work_id)),
    )
}

/// The item, closed at `seq`.
pub open spec fn closed_work(
    work: WorkView,
    state: WorkState,
    outcome: Seq<char>,
    seq: u64,
) -> WorkView {
    WorkView {
        state,
        block_reason: None,
        block_until: None,
        outcome: Some(outcome),
        changed_seq: seq,
        ..work
    }
}

/// Finishes work on evidence from outside: nothing may run at it.
pub open spec fn finish_externally(
    s: StateView,
    seq: u64,
    work_id: Seq<char>,
    attempt_id: Option<Seq<char>>,
    evidence: Option<Seq<char>>,
) -> Outcome {
    let said = or_else(evidence, Seq::empty());
    if text::blank(said) {
        Err(empty_field("external completion evidence"@))
    } else if attempt_id is Some || active_attempt(s, work_id) is Some {
        Err(error::validation_error("external completion requires no active attempt"@))
    } else {
        Ok(
            set_work(
                s,
                work_id,
                closed_work(s.work[work_id], WorkState::Done, "external: "@ + said, seq),
            ),
        )
    }
}

/// Finishes open work by the attempt that runs at it, with all checks satisfied.
pub open spec fn finish_by_attempt(
    s: StateView,
    seq: u64,
    work_id: Seq<char>,
    attempt_id: Option<Seq<char>>,
) -> Outcome {
    if !(s.work[work_id].state is Open) {
        Err(error::validation_error("blocked work may only be finished with external evidence"@))
    } else if attempt_id is None {
        Err(error::validation_error("ordinary completion requires --attempt"@))
    } else {
        let provided = attempt_id->0;
        match active_attempt(s, work_id) {
            None => Err(
                error::validation_error("work `"@ + work_id + "` has no active attempt"@),
            ),
            Some(active) => if active.id != provided {
                Err(attempt_mismatch(work_id, provided, active.id))
            } else if incomplete(active.checks).len() > 0 {
                Err(
                    error::context_error(
                        "incomplete_checks"@,
                        "work `"@ + work_id + "` has incomplete checks"@,
                        json::empty_object().with("attempt_id"@, JsonView::Text(provided)).with(
                            "checks"@,
                            json::text_list(incomplete(active.checks)),
                        ).with("work_id"@, JsonView::Text(work_id)),
                    ),
                )
            } else {
                match attempt_error(s, provided) {
                    Some(error) => Err(error),
                    None => Ok(
                        set_work(
                            set_attempt(
                                s,
                                provided,
                                ended(s.attempts[provided], AttemptOutcome::Succeeded, seq),
                            ),
                            work_id,
                            closed_work(s.work[work_id], WorkState::Done, "succeeded"@, seq),
                        ),
                    ),
                }
            },
        }
    }
}

pub open spec fn finish_work(
    s: StateView,
    seq: u64,
    work_id: Seq<char>,
    attempt_id: Option<Seq<char>>,
    external: bool,
    evidence: Option<Seq<char>>,
) -> Outcome {
    if !s.work.contains_key(work_id) {
        Err(error::not_found_error("work"@, work_id))
    } else if s.work[work_id].state.terminal() {
        Err(
            invalid_transition(
                "work `"@ + work_id + "` cannot be finished from "@ + s.work[work_id].state.title(),
                work_id,
                s.work[work_id].state,
            ),
        )
    } else if external {
        finish_externally(s, seq, work_id, attempt_id, evidence)
    } else {
        finish_by_attempt(s, seq, work_id, attempt_id)
    }
}

/// The state once the attempt at dropped work has ended, or why it may not.
pub open spec fn release(
    s: StateView,
    seq: u64,
    work_id: Seq<char>,
    attempt_id: Option<Seq<char>>,
    outcome: Option<AttemptOutcome>,
) -> Outcome {
    match active_attempt(s, work_id) {
        Some(active) => if attempt_id is Some && outcome is Some {
            if active.id != attempt_id->0 {
                Err(attempt_mismatch(work_id, attempt_id->0, active.id))
            } else if outcome->0 is Succeeded {
                Err(error::validation_error("drop requires a non-success attempt outcome"@))
            } else {
                match attempt_error(s, attempt_id->0) {
                    Some(error) => Err(error),
                    None => Ok(
                        set_attempt(
                            s,
                            attempt_id->0,
                            ended(s.attempts[attempt_id->0], outcome->0, seq),
                        ),
                    ),
                }
            }
        } else {
            Err(
                error::context_error(
                    "active_attempt"@,
                    "dropping `"@ + work_id + "` requires its active attempt and outcome"@,
                    json::empty_object().with(
                        "active_attempt_id"@,
                        JsonView::Text(active.id),
                    ).with("work_id"@, JsonView::Text(work_id)),
                ),
            )
        },
        None => if attempt_id is None && outcome is None {
            Ok(s)
        } else {
            Err(
                error::validation_error(
                    "attempt fields are not accepted when work has no active attempt"@,
                ),
            )
        },
    }
}

pub open spec fn drop_work(
    s: StateView,
    seq: u64,
    work_id: Seq<char>,
    attempt_id: Option<Seq<char>>,
    outcome: Option<AttemptOutcome>,
    why: Seq<char>,
) -> Outcome {
    if text::blank(why) {
        Err(empty_field("drop reason"@))
    } else if !s.work.contains_key(work_id) {
        Err(error::not_found_error("work"@, work_id))
    } else if s.work[work_id].state.terminal() {
        Err(
            invalid_transition(
                "work `"@ + work_id + "` cannot be dropped from "@ + s.work[work_id].state.title(),
                work_id,
                s.work[work_id].state,
            ),
        )
    } else {
        match release(s, seq, work_id, attempt_id, outcome) {
            Err(error) => Err(error),
            Ok(released) => match downstream_error(released, work_id) {
                Some(error) => Err(error),
                None => Ok(
                    set_work(
                        released,
                        work_id,
                        closed_work(s.work[work_id], WorkState::Dropped, why, seq),
                    ),
                ),
            },
        }
    }
}

/// Reopens work: blocked while a question about it still waits, else open.
pub open spec fn reopen_work(
    s: StateView,
    seq: u64,
    work_id: Seq<char>,
    why: Seq<char>,
) -> Outcome {
    if text::blank(why) {
        Err(empty_field("reopen reason"@))
    } else if !s.work.contains_key(work_id) {
        Err(error::not_found_error("work"@, work_id))
    } else if !s.work[work_id].state.terminal() {
        Err(
            invalid_transition(
                "work `"@ + work_id + "` is not terminal"@,
                work_id,
                s.work[work_id].state,
            ),
        )
    } else {
        match downstream_error(s, work_id) {
            Some(error) => Err(error),
            None => {
                let waiting = unanswered(s, work_id);
                let work = WorkView {
                    outcome: None,
                    block_until: None,
                    changed_seq: seq,
                    ..s.work[work_id]
                };
                Ok(
                    set_work(
                        s,
                        work_id,
                        if waiting.len() > 0 {
                            WorkView {
                                state: WorkState::Blocked,
                                block_reason: Some("question "@ + waiting[0].id),
                                ..work
                            }
                        } else {
                            WorkView { state: WorkState::Open, block_reason: None, ..work }
                        },
                    ),
                )
            },
        }
    }
}

// ---- questions ----

/// Asks a question: open work is blocked on it.
pub open spec fn ask(s: StateView, seq: u64, question: QuestionDefinitionView) -> Outcome {
    if text::blank(question.text) {
        Err(empty_field("question"@))
    } else if s.questions.contains_key(question.id) {
        Err(error::validation_error("question `"@ + question.id + "` already exists"@))
    } else if !s.work.contains_key(question.work_id) {
        Err(error::not_found_error("work"@, question.work_id))
    } else if s.work[question.work_id].state.terminal() {
        Err(
            error::validation_error(
                "questions cannot be asked against terminal work `"@ + question.work_id + "`"@,
            ),
        )
    } else {
        let work = WorkView { changed_seq: seq, ..s.work[question.work_id] };
        let held = if work.state is Open {
            WorkView {
                state: WorkState::Blocked,
                block_reason: Some("question "@ + question.id),
                ..work
            }
        } else {
            work
        };
        Ok(
            StateView {
                work: s.work.insert(question.work_id, held),
                questions: s.questions.insert(
                    question.id,
                    QuestionView {
                        id: question.id,
                        work_id: question.work_id,
                        text: question.text,
                        answer: None,
                        asked_seq: seq,
                        answered_seq: None,
                        answered_by: None,
                        answers: Seq::empty(),
                    },
                ),
                ..s
            },
        )
    }
}

/// Answers a question, again if need be. The work stays as it is.
pub open spec fn answer_question(
    s: StateView,
    seq: u64,
    actor: Seq<char>,
    question_id: Seq<char>,
    answer: Seq<char>,
) -> Outcome {
    if text::blank(answer) {
        Err(empty_field("answer"@))
    } else if !s.questions.contains_key(question_id) {
        Err(error::not_found_error("question"@, question_id))
    } else {
        let question = s.questions[question_id];
        Ok(
            StateView {
                questions: s.questions.insert(
                    question_id,
                    QuestionView {
                        answer: Some(answer),
                        answered_seq: Some(seq),
                        answered_by: Some(actor),
                        answers: question.answers.push(
                            QuestionAnswerView { answer, seq, actor },
                        ),
                        ..question
                    },
                ),
                ..s
            },
        )
    }
}

// ---- the loop ----

/// A pass that ended with a request to rotate.
pub open spec fn asked_to_rotate(body: JsonView) -> bool {
    body.member("rotate"@) == Some(JsonView::Bool(true))
}

pub open spec fn steer(s: StateView, seq: u64, payload: LoopEventPayloadView) -> Outcome {
    let control = s.loop_control;
    match payload {
        LoopEventPayloadView::LegacyPassStarted(_) => Ok(s),
        LoopEventPayloadView::LegacyPassEnded(body) => if asked_to_rotate(body) {
            Ok(
                StateView {
                    loop_control: crate::event::LoopControlView {
                        rotate_requested_seq: Some(seq),
                        ..control
                    },
                    ..s
                },
            )
        } else {
            Ok(s)
        },
        LoopEventPayloadView::LoopPaused { why } => Ok(
            StateView {
                loop_control: crate::event::LoopControlView {
                    paused: true,
                    pause_reason: if why is Some && !text::blank(why->0) {
                        why
                    } else {
                        None
                    },
                    ..control
                },
                ..s
            },
        ),
        LoopEventPayloadView::LoopResumed {} => Ok(
            StateView {
                loop_control: crate::event::LoopControlView {
                    paused: false,
                    pause_reason: None,
                    ..control
                },
                ..s
            },
        ),
        LoopEventPayloadView::LoopEngineSelected { engine } => if text::blank(engine) {
            Err(empty_field("engine"@))
        } else {
            Ok(
                StateView {
                    loop_control: crate::event::LoopControlView {
                        engine: Some(engine),
                        ..control
                    },
                    ..s
                },
            )
        },
        LoopEventPayloadView::LoopRotationRequested { .. } => Ok(
            StateView {
                loop_control: crate::event::LoopControlView {
                    rotate_requested_seq: Some(seq),
                    ..control
                },
                ..s
            },
        ),
        LoopEventPayloadView::LoopNudgeRequested { .. } => Ok(
            StateView {
                loop_control: crate::event::LoopControlView {
                    nudge_requested_seq: Some(seq),
                    ..control
                },
                ..s
            },
        ),
    }
}

// ---- the fold ----

pub open spec fn work_step(
    s: StateView,
    seq: u64,
    actor: Seq<char>,
    payload: WorkEventPayloadView,
) -> Outcome {
    match payload {
        WorkEventPayloadView::LegacyHandoffSubmitted { .. } => Ok(s),
        WorkEventPayloadView::LegacyHandoffWithdrawn { .. } => Ok(s),
        WorkEventPayloadView::LegacyHandoffIntegrated { work, .. } => with_graph(
            add_work(s, seq, work),
        ),
        WorkEventPayloadView::WorkChanged { operations, .. } => change_work(s, seq, operations),
        WorkEventPayloadView::WorkFinished { work_id, attempt_id, external, evidence } => {
            finish_work(s, seq, work_id, attempt_id, external, evidence)
        },
        WorkEventPayloadView::WorkDropped { work_id, attempt_id, outcome, why } => {
            drop_work(s, seq, work_id, attempt_id, outcome, why)
        },
        WorkEventPayloadView::WorkReopened { work_id, why } => reopen_work(s, seq, work_id, why),
        WorkEventPayloadView::AttemptStarted { attempt } => start_attempt(s, seq, attempt),
        WorkEventPayloadView::AttemptBound { attempt_id, handle, metadata } => bind_attempt(
            s,
            seq,
            attempt_id,
            handle,
            metadata,
        ),
        WorkEventPayloadView::AttemptUpdated { attempt_id, tier, metadata, note, checks } => {
            update_attempt(s, seq, attempt_id, tier, metadata, note, checks)
        },
        WorkEventPayloadView::AttemptEnded { attempt_id, outcome, why } => end_attempt(
            s,
            seq,
            attempt_id,
            outcome,
            why,
        ),
        WorkEventPayloadView::QuestionAsked { question } => ask(s, seq, question),
        WorkEventPayloadView::QuestionAnswered { question_id, answer } => answer_question(
            s,
            seq,
            actor,
            question_id,
            answer,
        ),
    }
}

/// What one event does to the project.
pub open spec fn step(s: StateView, event: EventView) -> Outcome {
    match event.payload {
        EventPayloadView::Work(payload) => work_step(s, event.seq, event.actor, payload),
        EventPayloadView::Observation(
            ObservationEventPayloadView::ObservationReported { observation },
        ) => report(s, event.seq, observation),
        EventPayloadView::Observation(ObservationEventPayloadView::ObservationRetired { key }) => {
            retire(s, key)
        },
        EventPayloadView::Loop(payload) => steer(s, event.seq, payload),
    }
}

/// The project before anything was said.
pub open spec fn blank_state() -> StateView {
    StateView {
        observations: Map::empty(),
        work: Map::empty(),
        attempts: Map::empty(),
        questions: Map::empty(),
        loop_control: crate::event::LoopControlView {
            paused: false,
            pause_reason: None,
            engine: None,
            rotate_requested_seq: None,
            nudge_requested_seq: None,
        },
    }
}

/// What is wrong with an event's place in a log that has `events` in front of it.
pub open spec fn place_error(events: Seq<EventView>, event: EventView) -> Option<ErrorView> {
    let expected = events.len() + 1;
    if event.seq != expected {
        Some(
            error::context_error(
                "invalid_log"@,
                "event sequence is not contiguous: expected "@ + text::decimal(expected)
                    + ", found "@ + text::decimal(event.seq as nat),
                json::empty_object().with("actual_seq"@, JsonView::Int(event.seq as int)).with(
                    "expected_seq"@,
                    JsonView::Int(expected as int),
                ),
            ),
        )
    } else if event.schema != "alder.event.v0"@ {
        Some(
            error::context_error(
                "invalid_log"@,
                "unsupported event schema `"@ + event.schema + "`"@,
                json::empty_object().with("event_id"@, JsonView::Text(event.id)).with(
                    "schema"@,
                    JsonView::Text(event.schema),
                ),
            ),
        )
    } else if exists|i: int| 0 <= i < events.len() && (#[trigger] events[i]).id == event.id {
        Some(
            error::context_error(
                "invalid_log"@,
                "duplicate event ID `"@ + event.id + "`"@,
                json::empty_object().with("event_id"@, JsonView::Text(event.id)),
            ),
        )
    } else {
        None
    }
}

/// The project that a log folds into, or what is wrong with its first bad event.
pub open spec fn folded(events: Seq<EventView>) -> Outcome
    decreases events.len(),
{
    if events.len() == 0 {
        Ok(blank_state())
    } else {
        match folded(events.drop_last()) {
            Err(error) => Err(error),
            Ok(s) => match place_error(events.drop_last(), events.last()) {
                Some(error) => Err(error),
                None => step(s, events.last()),
            },
        }
    }
}

} // verus!

//! The fold: statements applied to a project's state, one after the other.

use vstd::prelude::*;

use crate::attempt::{
    Attempt, AttemptCheck, AttemptCheckView, AttemptDefinition, AttemptOutcome, AttemptState,
    CheckStatus, CheckUpdate,
};
use crate::catalog;
use crate::catalog::{Catalog, Replica};
use crate::error;
use crate::error::{AlderError, Result};
use crate::event::{Event, EventPayload, LoopControl, LoopEventPayload, WorkEventPayload};
use crate::graph;
use crate::json::Json;
use crate::observation::{
    Observation, ObservationDefinition, ObservationEventPayload, ObservationKey,
};
use crate::project::{ProjectState, StateView};
use crate::question::{Question, QuestionAnswer, QuestionDefinition};
use crate::rules;
use crate::sorting::sort;
use crate::state::{require_text, validate_check, validate_observation_key};
use crate::text;
use crate::text::{
    begins_with, decimal_text, has_text, is_blank, is_text, joined, joined3, joined5, same_text,
};
use crate::views;
use crate::views::{opt_replica, replicas};
use crate::work::{
    CheckDefinition, CheckDefinitionView, Work, WorkDefinition, WorkOperation, WorkState,
    WorkStateChange,
};

verus! {

/// The outcome is what the rule says: the next state, or its refusal with
/// nothing changed.
pub open spec fn follows(
    rule: rules::Outcome,
    before: StateView,
    after: StateView,
    outcome: Result<()>,
) -> bool {
    match rule {
        Ok(next) => outcome is Ok && after == next,
        Err(error) => (outcome matches Err(e) && e@ == error) && after == before,
    }
}

/// Some text stands among the items more than once.
fn has_repeat(items: &Vec<String>) -> (has: bool)
    ensures
        has == !views::views(items@).no_duplicates(),
{
    let ghost all = views::views(items@);
    let mut index: usize = 0;
    while index < items.len()
        invariant
            index <= items@.len(),
            all == views::views(items@),
            forall|i: int, j: int| 0 <= i < j < index ==> #[trigger] all[i] != #[trigger] all[j],
        decreases items@.len() - index,
    {
        let mut earlier: usize = 0;
        while earlier < index
            invariant
                earlier <= index < items@.len(),
                all == views::views(items@),
                forall|i: int| 0 <= i < earlier ==> #[trigger] all[i] != all[index as int],
            decreases index - earlier,
        {
            assert(all[index as int] == items@[index as int]@);
            assert(all[earlier as int] == items@[earlier as int]@);
            if same_text(items[earlier].as_str(), items[index].as_str()) {
                return true;
            }
            earlier += 1;
        }
        index += 1;
    }
    false
}

fn keys_of_checks(checks: &Vec<CheckDefinition>) -> (keys: Vec<String>)
    ensures
        views::views(keys@) == rules::check_keys(views::views(checks@)),
{
    let mut keys: Vec<String> = Vec::new();
    let mut index: usize = 0;
    while index < checks.len()
        invariant
            index <= checks@.len(),
            keys@.len() == index,
            forall|i: int| 0 <= i < index ==> (#[trigger] keys@[i])@ == checks@[i]@.key,
        decreases checks@.len() - index,
    {
        keys.push(checks[index].key.clone());
        index += 1;
    }
    assert(views::views(keys@) =~= rules::check_keys(views::views(checks@)));
    keys
}

fn validate_checks(checks: &Vec<CheckDefinition>) -> (outcome: Result<()>)
    ensures
        match rules::checks_error(views::views(checks@)) {
            Some(error) => outcome matches Err(e) && e@ == error,
            None => outcome is Ok,
        },
{
    let ghost all = views::views(checks@);
    let mut index: usize = 0;
    assert(all.take(0) =~= Seq::empty());
    while index < checks.len()
        invariant
            index <= checks@.len(),
            all == views::views(checks@),
            rules::checks_error(all.take(index as int)) is None,
        decreases checks@.len() - index,
    {
        assert(all.take(index + 1).drop_last() =~= all.take(index as int));
        assert(all.take(index + 1).last() == checks@[index as int]@);
        if let Err(error) = validate_check(&checks[index]) {
            proof {
                checks_error_extends(all, index + 1);
            }
            return Err(error);
        }
        index += 1;
    }
    assert(all.take(index as int) =~= all);
    Ok(())
}

proof fn checks_error_extends(checks: Seq<CheckDefinitionView>, n: int)
    requires
        0 <= n <= checks.len(),
        rules::checks_error(checks.take(n)) is Some,
    ensures
        rules::checks_error(checks) == rules::checks_error(checks.take(n)),
    decreases checks.len() - n,
{
    if n < checks.len() {
        assert(checks.take(n + 1).drop_last() =~= checks.take(n));
        checks_error_extends(checks, n + 1);
    } else {
        assert(checks.take(n) =~= checks);
    }
}

/// The items that are not among `removed`.
fn kept_texts(items: &Vec<String>, removed: &Vec<String>) -> (kept: Vec<String>)
    ensures
        views::views(kept@) == rules::without(views::views(items@), views::views(removed@)),
{
    let ghost all = views::views(items@);
    let mut kept: Vec<String> = Vec::new();
    let mut index: usize = 0;
    assert(all.take(0) =~= Seq::<Seq<char>>::empty());
    assert(views::views(kept@) =~= Seq::empty());
    while index < items.len()
        invariant
            index <= items@.len(),
            all == views::views(items@),
            views::views(kept@) == rules::without(all.take(index as int), views::views(removed@)),
        decreases items@.len() - index,
    {
        assert(all.take(index + 1).drop_last() =~= all.take(index as int));
        assert(all.take(index + 1).last() == items@[index as int]@);
        if !has_text(removed, items[index].as_str()) {
            let ghost before = kept@;
            kept.push(items[index].clone());
            assert(views::views(kept@) =~= views::views(before).push(items@[index as int]@));
        }
        index += 1;
    }
    assert(all.take(index as int) =~= all);
    kept
}

/// The items and, behind them, those of `added` that are not there yet.
fn added_texts(items: Vec<String>, added: &Vec<String>) -> (all: Vec<String>)
    ensures
        views::views(all@) == rules::with_added(views::views(items@), views::views(added@)),
{
    let ghost start = views::views(items@);
    let ghost adds = views::views(added@);
    let mut all = items;
    let mut index: usize = 0;
    assert(adds.take(0) =~= Seq::<Seq<char>>::empty());
    while index < added.len()
        invariant
            index <= added@.len(),
            adds == views::views(added@),
            views::views(all@) == rules::with_added(start, adds.take(index as int)),
        decreases added@.len() - index,
    {
        assert(adds.take(index + 1).drop_last() =~= adds.take(index as int));
        assert(adds.take(index + 1).last() == added@[index as int]@);
        if !has_text(&all, added[index].as_str()) {
            let ghost before = all@;
            all.push(added[index].clone());
            assert(views::views(all@) =~= views::views(before).push(added@[index as int]@));
        }
        index += 1;
    }
    assert(adds.take(index as int) =~= adds);
    all
}

fn kept_checks(checks: &Vec<CheckDefinition>, removed: &Vec<String>) -> (kept: Vec<CheckDefinition>)
    ensures
        views::views(kept@) == rules::checks_without(views::views(checks@), views::views(removed@)),
{
    let ghost all = views::views(checks@);
    let mut kept: Vec<CheckDefinition> = Vec::new();
    let mut index: usize = 0;
    assert(all.take(0) =~= Seq::empty());
    assert(views::views(kept@) =~= Seq::empty());
    while index < checks.len()
        invariant
            index <= checks@.len(),
            all == views::views(checks@),
            views::views(kept@) == rules::checks_without(
                all.take(index as int),
                views::views(removed@),
            ),
        decreases checks@.len() - index,
    {
        assert(all.take(index + 1).drop_last() =~= all.take(index as int));
        assert(all.take(index + 1).last() == checks@[index as int]@);
        if !has_text(removed, checks[index].key.as_str()) {
            let ghost before = kept@;
            kept.push(checks[index].replica());
            assert(views::views(kept@) =~= views::views(before).push(checks@[index as int]@));
        }
        index += 1;
    }
    assert(all.take(index as int) =~= all);
    kept
}

proof fn checks_added_extends(
    checks: Seq<CheckDefinitionView>,
    added: Seq<CheckDefinitionView>,
    id: Seq<char>,
    n: int,
)
    requires
        0 <= n <= added.len(),
        rules::checks_added(checks, added.take(n), id) is Err,
    ensures
        rules::checks_added(checks, added, id) == rules::checks_added(checks, added.take(n), id),
    decreases added.len() - n,
{
    if n < added.len() {
        assert(added.take(n + 1).drop_last() =~= added.take(n));
        checks_added_extends(checks, added, id, n + 1);
    } else {
        assert(added.take(n) =~= added);
    }
}

/// The checks with `added` behind them.
fn added_checks(
    checks: Vec<CheckDefinition>,
    added: &Vec<CheckDefinition>,
    id: &str,
) -> (outcome: Result<Vec<CheckDefinition>>)
    ensures
        match rules::checks_added(views::views(checks@), views::views(added@), id@) {
            Ok(all) => outcome matches Ok(v) && views::views(v@) == all,
            Err(error) => outcome matches Err(e) && e@ == error,
        },
{
    let ghost start = views::views(checks@);
    let ghost adds = views::views(added@);
    let mut all = checks;
    let mut index: usize = 0;
    assert(adds.take(0) =~= Seq::empty());
    while index < added.len()
        invariant
            index <= added@.len(),
            start == views::views(checks@),
            adds == views::views(added@),
            rules::checks_added(start, adds.take(index as int), id@) == Ok::<
                Seq<CheckDefinitionView>,
                error::ErrorView,
            >(views::views(all@)),
        decreases added@.len() - index,
    {
        assert(adds.take(index + 1).drop_last() =~= adds.take(index as int));
        assert(adds.take(index + 1).last() == added@[index as int]@);
        let check = &added[index];
        if let Err(error) = validate_check(check) {
            proof {
                checks_added_extends(start, adds, id@, index + 1);
            }
            return Err(error);
        }
        if has_text(&keys_of_checks(&all), check.key.as_str()) {
            proof {
                checks_added_extends(start, adds, id@, index + 1);
            }
            return Err(
                AlderError::validation(
                    joined5("check `", check.key.as_str(), "` already exists on `", id, "`"),
                ),
            );
        }
        let ghost before = all@;
        all.push(check.replica());
        assert(views::views(all@) =~= views::views(before).push(check@));
        index += 1;
    }
    assert(adds.take(index as int) =~= adds);
    Ok(all)
}

/// The item after a change between open and blocked.
fn changed(
    work: Work,
    id: &str,
    change: &Option<WorkStateChange>,
    waiting: bool,
) -> (outcome: Result<Work>)
    ensures
        match rules::state_changed(work@, id@, views::opt_view(*change), waiting) {
            Ok(moved) => outcome matches Ok(w) && w@ == moved,
            Err(error) => outcome matches Err(e) && e@ == error,
        },
{
    let mut work = work;
    match change {
        None => {},
        Some(WorkStateChange::Block { reason, until }) => {
            if let Err(error) = require_text("block reason", reason.as_str()) {
                return Err(error);
            }
            work.state = WorkState::Blocked;
            work.block_reason = Some(reason.clone());
            work.block_until = *until;
        },
        Some(WorkStateChange::Unblock { reason }) => {
            if let Err(error) = require_text("unblock reason", reason.as_str()) {
                return Err(error);
            }
            let blocked = match work.state {
                WorkState::Blocked => true,
                _ => false,
            };
            if !blocked {
                return Err(AlderError::validation(joined3("work `", id, "` is not blocked")));
            }
            if waiting {
                return Err(
                    AlderError::with_context(
                        "unanswered_question",
                        joined3("work `", id, "` has an unanswered question"),
                        Json::object().with("work_id", Json::text(id)),
                    ),
                );
            }
            work.state = WorkState::Open;
            work.block_reason = None;
            work.block_until = None;
        },
    }
    Ok(work)
}

fn invalid_transition(message: String, work_id: &str, state: WorkState) -> (error: AlderError)
    ensures
        error@ == rules::invalid_transition(message@, work_id@, state),
{
    AlderError::with_context(
        "invalid_transition",
        message,
        Json::object().with("state", Json::text(state.as_str())).with(
            "work_id",
            Json::text(work_id),
        ),
    )
}

proof fn operated_extends(
    s: StateView,
    seq: u64,
    operations: Seq<crate::work::WorkOperationView>,
    n: int,
)
    requires
        0 <= n <= operations.len(),
        rules::operated(s, seq, operations.take(n)) is Err,
    ensures
        rules::operated(s, seq, operations) == rules::operated(s, seq, operations.take(n)),
    decreases operations.len() - n,
{
    if n < operations.len() {
        assert(operations.take(n + 1).drop_last() =~= operations.take(n));
        operated_extends(s, seq, operations, n + 1);
    } else {
        assert(operations.take(n) =~= operations);
    }
}

pub proof fn first_repeat_extends(items: Seq<Seq<char>>, n: int)
    requires
        0 <= n <= items.len(),
        rules::first_repeat(items.take(n)) is Some,
    ensures
        rules::first_repeat(items) == rules::first_repeat(items.take(n)),
    decreases items.len() - n,
{
    if n < items.len() {
        assert(items.take(n + 1).drop_last() =~= items.take(n));
        first_repeat_extends(items, n + 1);
    } else {
        assert(items.take(n) =~= items);
    }
}

/// The checks of an item, all of them pending.
fn pending_checks(checks: &Vec<CheckDefinition>) -> (pending: Catalog<String, AttemptCheck>)
    ensures
        pending@ == rules::pending(views::views(checks@)),
{
    let ghost all = views::views(checks@);
    let mut pending: Catalog<String, AttemptCheck> = Catalog::new();
    let mut index: usize = 0;
    assert(all.take(0) =~= Seq::empty());
    while index < checks.len()
        invariant
            index <= checks@.len(),
            all == views::views(checks@),
            pending@ == rules::pending(all.take(index as int)),
        decreases checks@.len() - index,
    {
        assert(all.take(index + 1).drop_last() =~= all.take(index as int));
        assert(all.take(index + 1).last() == checks@[index as int]@);
        let key = &checks[index].key;
        pending.insert(
            key.clone(),
            AttemptCheck {
                key: key.clone(),
                status: CheckStatus::Pending,
                evidence: None,
                updated_seq: None,
            },
        );
        index += 1;
    }
    assert(all.take(index as int) =~= all);
    pending
}

/// The entries of `base`, with those of `more` over them.
fn extended(base: Catalog<String, Json>, more: &Catalog<String, Json>) -> (all: Catalog<
    String,
    Json,
>)
    ensures
        all@ == base@.union_prefer_right(more@),
{
    let len = more.len();
    let ghost keys = more.keys();
    let mut all = base;
    let mut index: usize = 0;
    while index < len
        invariant
            index <= len,
            len == keys.len(),
            keys == more.keys(),
            catalog::lists::<String>(keys, more@.dom()),
            forall|k: Seq<char>|
                all@.contains_key(k) <==> base@.contains_key(k) || keys.take(index as int).contains(
                    k,
                ),
            forall|k: Seq<char>| #[trigger]
                all@.contains_key(k) ==> all@[k] == (if keys.take(index as int).contains(k) {
                    more@[k]
                } else {
                    base@[k]
                }),
        decreases len - index,
    {
        let ghost before = all@;
        let ghost front = keys.take(index as int);
        let ghost key = keys[index as int];
        all.insert(more.key_at(index).clone(), more.value_at(index).clone());
        proof {
            let longer = keys.take(index + 1);
            assert(longer =~= front.push(key));
            assert forall|k: Seq<char>| longer.contains(k) <==> front.contains(k) || k == key by {
                if longer.contains(k) && k != key {
                    let i = choose|i: int| 0 <= i < longer.len() && longer[i] == k;
                    assert(front[i] == k);
                }
                if front.contains(k) {
                    let i = choose|i: int| 0 <= i < front.len() && front[i] == k;
                    assert(longer[i] == k);
                }
                assert(longer[longer.len() - 1] == key);
            }
        }
        index += 1;
    }
    proof {
        assert(keys.take(index as int) =~= keys);
        assert forall|k: Seq<char>| keys.contains(k) <==> more@.contains_key(k) by {
            assert(keys.to_set().contains(k) <==> more@.dom().contains(k));
        }
        assert(all@ =~= base@.union_prefer_right(more@));
    }
    all
}

proof fn judged_extends(
    checks: Map<Seq<char>, AttemptCheckView>,
    updates: Seq<crate::attempt::CheckUpdateView>,
    attempt_id: Seq<char>,
    seq: u64,
    n: int,
)
    requires
        0 <= n <= updates.len(),
        rules::judged(checks, updates.take(n), attempt_id, seq) is Err,
    ensures
        rules::judged(checks, updates, attempt_id, seq) == rules::judged(
            checks,
            updates.take(n),
            attempt_id,
            seq,
        ),
    decreases updates.len() - n,
{
    if n < updates.len() {
        assert(updates.take(n + 1).drop_last() =~= updates.take(n));
        judged_extends(checks, updates, attempt_id, seq, n + 1);
    } else {
        assert(updates.take(n) =~= updates);
    }
}

/// The checks after the verdicts.
fn judged(
    checks: Catalog<String, AttemptCheck>,
    updates: &Vec<CheckUpdate>,
    attempt_id: &str,
    seq: u64,
) -> (outcome: Result<Catalog<String, AttemptCheck>>)
    ensures
        match rules::judged(checks@, views::views(updates@), attempt_id@, seq) {
            Ok(all) => outcome matches Ok(c) && c@ == all,
            Err(error) => outcome matches Err(e) && e@ == error,
        },
{
    let ghost start = checks@;
    let ghost verdicts = views::views(updates@);
    let mut all = checks;
    let mut index: usize = 0;
    assert(verdicts.take(0) =~= Seq::empty());
    while index < updates.len()
        invariant
            index <= updates@.len(),
            start == checks@,
            verdicts == views::views(updates@),
            rules::judged(start, verdicts.take(index as int), attempt_id@, seq) == Ok::<
                Map<Seq<char>, AttemptCheckView>,
                error::ErrorView,
            >(all@),
        decreases updates@.len() - index,
    {
        assert(verdicts.take(index + 1).drop_last() =~= verdicts.take(index as int));
        assert(verdicts.take(index + 1).last() == updates@[index as int]@);
        let update = &updates[index];
        if let Err(error) = require_text("check evidence", update.evidence.as_str()) {
            proof {
                judged_extends(start, verdicts, attempt_id@, seq, index + 1);
            }
            return Err(error);
        }
        let mut check = match all.get(update.key.as_str()) {
            None => {
                proof {
                    judged_extends(start, verdicts, attempt_id@, seq, index + 1);
                }
                return Err(
                    AlderError::with_context(
                        "unknown_check",
                        joined5(
                            "attempt `",
                            attempt_id,
                            "` has no check named `",
                            update.key.as_str(),
                            "`",
                        ),
                        Json::object().with("attempt_id", Json::text(attempt_id)).with(
                            "check",
                            Json::text(update.key.as_str()),
                        ),
                    ),
                );
            },
            Some(check) => check.replica(),
        };
        check.status = update.status;
        check.evidence = Some(update.evidence.clone());
        check.updated_seq = Some(seq);
        all.insert(update.key.clone(), check);
        index += 1;
    }
    assert(verdicts.take(index as int) =~= verdicts);
    Ok(all)
}

/// The attempt, ended at `seq`.
fn ended(attempt: &Attempt, outcome: AttemptOutcome, seq: u64) -> (after: Attempt)
    ensures
        after@ == rules::ended(attempt@, outcome, seq),
{
    let mut after = attempt.replica();
    after.state = AttemptState::Ended;
    after.outcome = Some(outcome);
    after.ended_seq = Some(seq);
    after.updated_seq = seq;
    after
}

/// The keys of the checks that are not satisfied.
fn incomplete_checks(checks: &Catalog<String, AttemptCheck>) -> (incomplete: Vec<String>)
    ensures
        views::views(incomplete@) == rules::incomplete(checks@),
{
    let len = checks.len();
    let ghost keys = checks.keys();
    let mut incomplete: Vec<String> = Vec::new();
    let mut index: usize = 0;
    assert(keys.take(0) =~= Seq::<Seq<char>>::empty());
    assert(views::views(incomplete@) =~= Seq::empty());
    while index < len
        invariant
            index <= len,
            len == keys.len(),
            keys == checks.keys(),
            views::views(incomplete@) == rules::incomplete_among(
                checks@,
                keys.take(index as int),
            ),
        decreases len - index,
    {
        assert(keys.take(index + 1).drop_last() =~= keys.take(index as int));
        let check = checks.value_at(index);
        let satisfied = match check.status {
            CheckStatus::Satisfied => true,
            _ => false,
        };
        if !satisfied {
            let ghost before = incomplete@;
            incomplete.push(check.key.clone());
            assert(views::views(incomplete@) =~= views::views(before).push(check@.key));
        }
        index += 1;
    }
    assert(keys.take(index as int) =~= keys);
    incomplete
}

fn attempt_mismatch(work_id: &str, provided: &str, active: &str) -> (error: AlderError)
    ensures
        error@ == rules::attempt_mismatch(work_id@, provided@, active@),
{
    AlderError::with_context(
        "attempt_mismatch",
        joined5("`", provided, "` is not the active attempt for `", work_id, "`"),
        Json::object().with("active_attempt_id", Json::text(active)).with(
            "attempt_id",
            Json::text(provided),
        ).with("work_id", Json::text(work_id)),
    )
}

/// The item, closed at `seq`.
fn closed_work(work: &Work, state: WorkState, outcome: String, seq: u64) -> (after: Work)
    ensures
        after@ == rules::closed_work(work@, state, outcome@, seq),
{
    let mut after = work.replica();
    after.state = state;
    after.block_reason = None;
    after.block_until = None;
    after.outcome = Some(outcome);
    after.changed_seq = seq;
    after
}

proof fn foreign_key_extends(keys: Seq<Seq<char>>, prefix: Seq<char>, n: int)
    requires
        0 <= n <= keys.len(),
        rules::foreign_key(keys.take(n), prefix) is Some,
    ensures
        rules::foreign_key(keys, prefix) == rules::foreign_key(keys.take(n), prefix),
    decreases keys.len() - n,
{
    if n < keys.len() {
        assert(keys.take(n + 1).drop_last() =~= keys.take(n));
        foreign_key_extends(keys, prefix, n + 1);
    } else {
        assert(keys.take(n) =~= keys);
    }
}

/// A log whose beginning is refused is refused for the same reason.
pub proof fn folded_extends(events: Seq<crate::event::EventView>, n: int)
    requires
        0 <= n <= events.len(),
        rules::folded(events.take(n)) is Err,
    ensures
        rules::folded(events) == rules::folded(events.take(n)),
    decreases events.len() - n,
{
    if n < events.len() {
        assert(events.take(n + 1).drop_last() =~= events.take(n));
        folded_extends(events, n + 1);
    } else {
        assert(events.take(n) =~= events);
    }
}

impl Default for ProjectState {
    fn default() -> (state: ProjectState)
        ensures
            state@ == rules::blank_state(),
    {
        ProjectState {
            observations: Catalog::new(),
            work: Catalog::new(),
            attempts: Catalog::new(),
            questions: Catalog::new(),
            loop_control: LoopControl {
                paused: false,
                pause_reason: None,
                engine: None,
                rotate_requested_seq: None,
                nudge_requested_seq: None,
            },
        }
    }
}

/// Refuses a change that targets an item twice.
fn refuse_repeated_targets(operations: &Vec<WorkOperation>) -> (outcome: Result<()>)
    ensures
        match rules::first_repeat(rules::targets(views::views(operations@))) {
            Some(id) => outcome matches Err(e) && e@ == rules::targeted_twice(id),
            None => outcome is Ok,
        },
{
    let ghost ids = rules::targets(views::views(operations@));
    let mut seen: Catalog<String, ()> = Catalog::new();
    let mut index: usize = 0;
    assert(ids.take(0) =~= Seq::<Seq<char>>::empty());
    while index < operations.len()
        invariant
            index <= operations@.len(),
            ids == rules::targets(views::views(operations@)),
            rules::first_repeat(ids.take(index as int)) is None,
            forall|k: Seq<char>| seen@.contains_key(k) <==> ids.take(index as int).contains(k),
        decreases operations@.len() - index,
    {
        let id = operations[index].id();
        let ghost front = ids.take(index as int);
        assert(ids.take(index + 1).drop_last() =~= front);
        assert(ids.take(index + 1).last() == id@);
        if seen.contains_key(id) {
            proof {
                first_repeat_extends(ids, index + 1);
            }
            return Err(
                AlderError::validation(joined3("work `", id, "` is targeted more than once")),
            );
        }
        seen.insert(id.to_owned(), ());
        proof {
            let longer = ids.take(index + 1);
            assert(longer =~= front.push(id@));
            assert forall|k: Seq<char>| seen@.contains_key(k) <==> longer.contains(k) by {
                if longer.contains(k) && k != id@ {
                    let i = choose|i: int| 0 <= i < longer.len() && longer[i] == k;
                    assert(front[i] == k);
                }
                if front.contains(k) {
                    let i = choose|i: int| 0 <= i < front.len() && front[i] == k;
                    assert(longer[i] == k);
                }
                assert(longer[longer.len() - 1] == id@);
            }
        }
        index += 1;
    }
    assert(ids.take(index as int) =~= ids);
    Ok(())
}

impl ProjectState {
    /// Opens a work item.
    pub fn add_work(&mut self, definition: &WorkDefinition, seq: u64) -> (outcome: Result<()>)
        ensures
            follows(
                rules::add_work(old(self)@, seq, definition@),
                old(self)@,
                final(self)@,
                outcome,
            ),
    {
        let id = definition.id.as_str();
        if self.work.contains_key(id) {
            return Err(AlderError::validation(joined3("work `", id, "` already exists")));
        }
        if let Err(error) = require_text("work title", definition.title.as_str()) {
            return Err(error);
        }
        if has_repeat(&definition.requires) {
            return Err(
                AlderError::validation(
                    joined3("work `", id, "` contains duplicate dependencies"),
                ),
            );
        }
        let needs = sort(replicas(&definition.requires));
        let checks = sort(replicas(&definition.checks));
        if let Err(error) = validate_checks(&checks) {
            return Err(error);
        }
        if has_repeat(&keys_of_checks(&definition.checks)) {
            return Err(
                AlderError::validation(joined3("work `", id, "` contains duplicate check keys")),
            );
        }
        self.work.insert(
            definition.id.clone(),
            Work {
                id: definition.id.clone(),
                title: definition.title.clone(),
                spec: opt_replica(&definition.spec),
                priority: definition.priority,
                state: WorkState::Open,
                block_reason: None,
                block_until: None,
                outcome: None,
                opened_seq: seq,
                changed_seq: seq,
                requires: needs,
                checks,
            },
        );
        Ok(())
    }

    /// Does one step of a change to the work graph.
    fn operate(&mut self, operation: &WorkOperation, seq: u64) -> (outcome: Result<()>)
        ensures
            follows(
                rules::edit_work(old(self)@, seq, operation@),
                old(self)@,
                final(self)@,
                outcome,
            ),
    {
        match operation {
            WorkOperation::Add { work } => self.add_work(work, seq),
            WorkOperation::Edit {
                id,
                title,
                spec,
                priority,
                add_requires,
                remove_requires,
                add_checks,
                remove_checks,
                state_change,
            } => {
                let id_text = id.as_str();
                if let Some(attempt) = self.active_attempt_for(id_text) {
                    if add_requires.len() > 0 || remove_requires.len() > 0 || add_checks.len() > 0
                        || remove_checks.len() > 0 {
                        return Err(
                            AlderError::with_context(
                                "active_attempt",
                                joined3(
                                    "dependencies and checks cannot change while `",
                                    attempt.id.as_str(),
                                    "` is active",
                                ),
                                Json::object().with(
                                    "attempt_id",
                                    Json::text(attempt.id.as_str()),
                                ).with("work_id", Json::text(id_text)),
                            ),
                        );
                    }
                }
                let waiting = self.has_unanswered(id_text);
                let before = match self.work.get(id_text) {
                    None => {
                        return Err(AlderError::not_found("work", id_text));
                    },
                    Some(work) => work,
                };
                if before.state.is_terminal() {
                    return Err(
                        invalid_transition(
                            joined3(
                                "terminal work `",
                                id_text,
                                "` must be reopened before it is edited",
                            ),
                            id_text,
                            before.state,
                        ),
                    );
                }
                if let Some(title) = title {
                    if let Err(error) = require_text("work title", title.as_str()) {
                        return Err(error);
                    }
                }
                let needs = added_texts(
                    kept_texts(&before.requires, remove_requires),
                    add_requires,
                );
                let checks = match added_checks(
                    kept_checks(&before.checks, remove_checks),
                    add_checks,
                    id_text,
                ) {
                    Err(error) => {
                        return Err(error);
                    },
                    Ok(checks) => checks,
                };
                let mut work = match changed(before.replica(), id_text, state_change, waiting) {
                    Err(error) => {
                        return Err(error);
                    },
                    Ok(work) => work,
                };
                if let Some(title) = title {
                    work.title = title.clone();
                }
                if let Some(spec) = spec {
                    work.spec = opt_replica(&spec.0);
                }
                if let Some(priority) = priority {
                    work.priority = *priority;
                }
                work.requires = sort(needs);
                work.checks = sort(checks);
                work.changed_seq = seq;
                self.work.insert(id.clone(), work);
                Ok(())
            },
        }
    }

    /// Changes the work graph: all of the operations or none.
    fn change_work(&mut self, operations: &Vec<WorkOperation>, seq: u64) -> (outcome: Result<()>)
        ensures
            follows(
                rules::change_work(old(self)@, seq, views::views(operations@)),
                old(self)@,
                final(self)@,
                outcome,
            ),
    {
        let ghost all = views::views(operations@);
        assert(all.len() == operations@.len());
        if operations.len() == 0 {
            return Err(
                AlderError::validation(
                    "a work change must contain at least one operation".to_owned(),
                ),
            );
        }
        if let Err(error) = refuse_repeated_targets(operations) {
            return Err(error);
        }
        let mut next = self.replica();
        let ghost start = self@;
        let mut index: usize = 0;
        assert(all.take(0) =~= Seq::empty());
        while index < operations.len()
            invariant
                index <= operations@.len(),
                all == views::views(operations@),
                start == old(self)@,
                self@ == start,
                rules::operated(start, seq, all.take(index as int)) == Ok::<
                    StateView,
                    error::ErrorView,
                >(next@),
                rules::change_work(start, seq, all) == rules::with_graph(
                    rules::operated(start, seq, all),
                ),
            decreases operations@.len() - index,
        {
            assert(all.take(index + 1).drop_last() =~= all.take(index as int));
            assert(all.take(index + 1).last() == operations@[index as int]@);
            if let Err(error) = next.operate(&operations[index], seq) {
                proof {
                    operated_extends(start, seq, all, index + 1);
                }
                return Err(error);
            }
            index += 1;
        }
        assert(all.take(index as int) =~= all);
        if let Err(error) = next.validate_graph() {
            return Err(error);
        }
        *self = next;
        Ok(())
    }

    /// Refuses an attempt that is not there or has ended.
    fn live_attempt(&self, attempt_id: &str) -> (outcome: Result<&Attempt>)
        ensures
            match rules::attempt_error(self@, attempt_id@) {
                Some(error) => outcome matches Err(e) && e@ == error,
                None => self@.attempts.contains_key(attempt_id@) && (outcome matches Ok(a) && a@
                    == self@.attempts[attempt_id@]),
            },
    {
        match self.attempts.get(attempt_id) {
            None => Err(AlderError::not_found("attempt", attempt_id)),
            Some(attempt) => {
                let has_ended = match attempt.state {
                    AttemptState::Ended => true,
                    _ => false,
                };
                if has_ended {
                    let outcome = match attempt.outcome {
                        Some(outcome) => Json::text(outcome.as_str()),
                        None => Json::Null,
                    };
                    Err(
                        AlderError::with_context(
                            "attempt_ended",
                            joined3("attempt `", attempt_id, "` has ended"),
                            Json::object().with("attempt_id", Json::text(attempt_id)).with(
                                "outcome",
                                outcome,
                            ),
                        ),
                    )
                } else {
                    Ok(attempt)
                }
            },
        }
    }

    fn start_attempt(&mut self, attempt: &AttemptDefinition, seq: u64) -> (outcome: Result<()>)
        ensures
            follows(
                rules::start_attempt(old(self)@, seq, attempt@),
                old(self)@,
                final(self)@,
                outcome,
            ),
    {
        if let Some(tier) = &attempt.tier {
            if let Err(error) = require_text("attempt tier", tier.as_str()) {
                return Err(error);
            }
        }
        if self.attempts.contains_key(attempt.id.as_str()) {
            return Err(
                AlderError::validation(
                    joined3("attempt `", attempt.id.as_str(), "` already exists"),
                ),
            );
        }
        let checks = match self.work.get(attempt.work_id.as_str()) {
            None => {
                return Err(AlderError::not_found("work", attempt.work_id.as_str()));
            },
            Some(work) => pending_checks(&work.checks),
        };
        if !self.is_ready(attempt.work_id.as_str()) {
            return Err(
                AlderError::with_context(
                    "work_not_ready",
                    joined3("work `", attempt.work_id.as_str(), "` is not ready"),
                    Json::object().with("work_id", Json::text(attempt.work_id.as_str())),
                ),
            );
        }
        self.attempts.insert(
            attempt.id.clone(),
            Attempt {
                id: attempt.id.clone(),
                work_id: attempt.work_id.clone(),
                state: AttemptState::Starting,
                outcome: None,
                tier: opt_replica(&attempt.tier),
                handle: None,
                metadata: attempt.metadata.replica(),
                note: None,
                started_seq: seq,
                bound_seq: None,
                updated_seq: seq,
                ended_seq: None,
                checks,
            },
        );
        Ok(())
    }

    /// Whether the handle belongs to an attempt that has not ended.
    fn is_attached(&self, handle: &str) -> (is: bool)
        ensures
            is == rules::attached(self@, handle@),
    {
        let len = self.attempts.len();
        let ghost keys = self.attempts.keys();
        let mut index: usize = 0;
        while index < len
            invariant
                index <= len,
                len == keys.len(),
                keys == self.attempts.keys(),
                catalog::lists::<String>(keys, self.attempts@.dom()),
                forall|i: int|
                    0 <= i < index ==> (#[trigger] self@.attempts[keys[i]]).state is Ended
                        || self@.attempts[keys[i]].handle != Some(handle@),
            decreases len - index,
        {
            let attempt = self.attempts.value_at(index);
            let has_ended = match attempt.state {
                AttemptState::Ended => true,
                _ => false,
            };
            if !has_ended && is_text(&attempt.handle, handle) {
                assert(self@.attempts[keys[index as int]].handle == Some(handle@));
                return true;
            }
            index += 1;
        }
        proof {
            assert forall|k: Seq<char>| self@.attempts.contains_key(k) implies (
            #[trigger] self@.attempts[k]).state is Ended || self@.attempts[k].handle != Some(
                handle@,
            ) by {
                assert(keys.to_set().contains(k));
                let j = choose|j: int| 0 <= j < keys.len() && keys[j] == k;
                assert(self@.attempts[keys[j]].state is Ended || self@.attempts[keys[j]].handle
                    != Some(handle@));
            }
        }
        false
    }

    fn bind_attempt(
        &mut self,
        attempt_id: &str,
        handle: &str,
        metadata: &Catalog<String, Json>,
        seq: u64,
    ) -> (outcome: Result<()>)
        ensures
            follows(
                rules::bind_attempt(old(self)@, seq, attempt_id@, handle@, metadata@),
                old(self)@,
                final(self)@,
                outcome,
            ),
    {
        if let Err(error) = require_text("attempt handle", handle) {
            return Err(error);
        }
        if self.is_attached(handle) {
            return Err(
                AlderError::validation(joined3("handle `", handle, "` is already attached")),
            );
        }
        let mut attempt = match self.live_attempt(attempt_id) {
            Err(error) => {
                return Err(error);
            },
            Ok(attempt) => attempt.replica(),
        };
        if attempt.handle.is_some() {
            return Err(
                AlderError::with_context(
                    "handle_already_bound",
                    joined3("attempt `", attempt_id, "` already has a handle"),
                    Json::object().with("attempt_id", Json::text(attempt_id)).with(
                        "handle",
                        Json::optional_text(&attempt.handle),
                    ),
                ),
            );
        }
        attempt.handle = Some(handle.to_owned());
        attempt.state = AttemptState::Active;
        attempt.bound_seq = Some(seq);
        attempt.updated_seq = seq;
        attempt.metadata = extended(attempt.metadata, metadata);
        self.attempts.insert(attempt_id.to_owned(), attempt);
        Ok(())
    }

    fn update_attempt(
        &mut self,
        attempt_id: &str,
        tier: &Option<String>,
        metadata: &Catalog<String, Json>,
        note: &Option<String>,
        checks: &Vec<CheckUpdate>,
        seq: u64,
    ) -> (outcome: Result<()>)
        ensures
            follows(
                rules::update_attempt(
                    old(self)@,
                    seq,
                    attempt_id@,
                    views::opt_view(*tier),
                    metadata@,
                    views::opt_view(*note),
                    views::views(checks@),
                ),
                old(self)@,
                final(self)@,
                outcome,
            ),
    {
        if let Some(tier) = tier {
            if let Err(error) = require_text("attempt tier", tier.as_str()) {
                return Err(error);
            }
        }
        let mut attempt = match self.live_attempt(attempt_id) {
            Err(error) => {
                return Err(error);
            },
            Ok(attempt) => attempt.replica(),
        };
        assert(views::views(checks@).len() == checks@.len());
        if tier.is_none() && metadata.is_empty() && note.is_none() && checks.len() == 0 {
            return Err(
                AlderError::validation(
                    "an attempt update must change a tier, metadata, a note, or a check".to_owned(),
                ),
            );
        }
        attempt.checks = match judged(attempt.checks, checks, attempt_id, seq) {
            Err(error) => {
                return Err(error);
            },
            Ok(checks) => checks,
        };
        if let Some(tier) = tier {
            attempt.tier = Some(tier.clone());
        }
        attempt.metadata = extended(attempt.metadata, metadata);
        if let Some(note) = note {
            if let Err(error) = require_text("attempt note", note.as_str()) {
                return Err(error);
            }
            attempt.note = Some(note.clone());
        }
        attempt.updated_seq = seq;
        attempt.state = AttemptState::Active;
        self.attempts.insert(attempt_id.to_owned(), attempt);
        Ok(())
    }

    fn end_attempt(
        &mut self,
        attempt_id: &str,
        outcome: AttemptOutcome,
        why: &str,
        seq: u64,
    ) -> (result: Result<()>)
        ensures
            follows(
                rules::end_attempt(old(self)@, seq, attempt_id@, outcome, why@),
                old(self)@,
                final(self)@,
                result,
            ),
    {
        if let Err(error) = require_text("attempt end reason", why) {
            return Err(error);
        }
        if !outcome.is_non_success() {
            return Err(
                AlderError::validation(
                    "successful attempts are ended by finishing their work".to_owned(),
                ),
            );
        }
        let attempt = match self.live_attempt(attempt_id) {
            Err(error) => {
                return Err(error);
            },
            Ok(attempt) => ended(attempt, outcome, seq),
        };
        self.attempts.insert(attempt_id.to_owned(), attempt);
        Ok(())
    }

    fn finish_work(
        &mut self,
        work_id: &str,
        attempt_id: &Option<String>,
        external: bool,
        evidence: &Option<String>,
        seq: u64,
    ) -> (outcome: Result<()>)
        ensures
            follows(
                rules::finish_work(
                    old(self)@,
                    seq,
                    work_id@,
                    views::opt_view(*attempt_id),
                    external,
                    views::opt_view(*evidence),
                ),
                old(self)@,
                final(self)@,
                outcome,
            ),
    {
        let work = match self.work.get(work_id) {
            None => {
                return Err(AlderError::not_found("work", work_id));
            },
            Some(work) => work,
        };
        if work.state.is_terminal() {
            return Err(
                invalid_transition(
                    joined3("work `", work_id, "` cannot be finished from ").concat(
                        work.state.as_title(),
                    ),
                    work_id,
                    work.state,
                ),
            );
        }
        if external {
            let said: &str = match evidence {
                Some(text) => text.as_str(),
                None => "",
            };
            proof {
                reveal_strlit("");
                if evidence is None {
                    assert(said@ =~= Seq::<char>::empty());
                }
            }
            if let Err(error) = require_text("external completion evidence", said) {
                return Err(error);
            }
            if attempt_id.is_some() || self.active_attempt_for(work_id).is_some() {
                return Err(
                    AlderError::validation(
                        "external completion requires no active attempt".to_owned(),
                    ),
                );
            }
            let done = closed_work(work, WorkState::Done, joined("external: ", said), seq);
            self.work.insert(work_id.to_owned(), done);
            return Ok(());
        }
        let open = match work.state {
            WorkState::Open => true,
            _ => false,
        };
        if !open {
            return Err(
                AlderError::validation(
                    "blocked work may only be finished with external evidence".to_owned(),
                ),
            );
        }
        let provided = match attempt_id {
            None => {
                return Err(
                    AlderError::validation("ordinary completion requires --attempt".to_owned()),
                );
            },
            Some(id) => id.as_str(),
        };
        let active = match self.active_attempt_for(work_id) {
            None => {
                return Err(
                    AlderError::validation(joined3("work `", work_id, "` has no active attempt")),
                );
            },
            Some(active) => active,
        };
        if !same_text(active.id.as_str(), provided) {
            return Err(attempt_mismatch(work_id, provided, active.id.as_str()));
        }
        let incomplete = incomplete_checks(&active.checks);
        assert(views::views(incomplete@).len() == incomplete@.len());
        if incomplete.len() > 0 {
            return Err(
                AlderError::with_context(
                    "incomplete_checks",
                    joined3("work `", work_id, "` has incomplete checks"),
                    Json::object().with("attempt_id", Json::text(provided)).with(
                        "checks",
                        Json::texts(&incomplete),
                    ).with("work_id", Json::text(work_id)),
                ),
            );
        }
        let attempt = match self.live_attempt(provided) {
            Err(error) => {
                return Err(error);
            },
            Ok(attempt) => ended(attempt, AttemptOutcome::Succeeded, seq),
        };
        let done = closed_work(work, WorkState::Done, "succeeded".to_owned(), seq);
        self.attempts.insert(provided.to_owned(), attempt);
        self.work.insert(work_id.to_owned(), done);
        Ok(())
    }

    /// The state once the attempt at dropped work has ended.
    fn release(
        &self,
        work_id: &str,
        attempt_id: &Option<String>,
        outcome: Option<AttemptOutcome>,
        seq: u64,
    ) -> (result: Result<ProjectState>)
        ensures
            match rules::release(self@, seq, work_id@, views::opt_view(*attempt_id), outcome) {
                Ok(next) => result matches Ok(s) && s@ == next,
                Err(error) => result matches Err(e) && e@ == error,
            },
    {
        match self.active_attempt_for(work_id) {
            Some(active) => {
                match (attempt_id, outcome) {
                    (Some(provided), Some(outcome)) => {
                        if !same_text(active.id.as_str(), provided.as_str()) {
                            return Err(
                                attempt_mismatch(
                                    work_id,
                                    provided.as_str(),
                                    active.id.as_str(),
                                ),
                            );
                        }
                        if !outcome.is_non_success() {
                            return Err(
                                AlderError::validation(
                                    "drop requires a non-success attempt outcome".to_owned(),
                                ),
                            );
                        }
                        let attempt = match self.live_attempt(provided.as_str()) {
                            Err(error) => {
                                return Err(error);
                            },
                            Ok(attempt) => ended(attempt, outcome, seq),
                        };
                        let mut next = self.replica();
                        next.attempts.insert(provided.clone(), attempt);
                        Ok(next)
                    },
                    _ => Err(
                        AlderError::with_context(
                            "active_attempt",
                            joined3(
                                "dropping `",
                                work_id,
                                "` requires its active attempt and outcome",
                            ),
                            Json::object().with(
                                "active_attempt_id",
                                Json::text(active.id.as_str()),
                            ).with("work_id", Json::text(work_id)),
                        ),
                    ),
                }
            },
            None => if attempt_id.is_none() && outcome.is_none() {
                Ok(self.replica())
            } else {
                Err(
                    AlderError::validation(
                        "attempt fields are not accepted when work has no active attempt".to_owned(),
                    ),
                )
            },
        }
    }

    fn drop_work(
        &mut self,
        work_id: &str,
        attempt_id: &Option<String>,
        outcome: Option<AttemptOutcome>,
        why: &str,
        seq: u64,
    ) -> (result: Result<()>)
        ensures
            follows(
                rules::drop_work(
                    old(self)@,
                    seq,
                    work_id@,
                    views::opt_view(*attempt_id),
                    outcome,
                    why@,
                ),
                old(self)@,
                final(self)@,
                result,
            ),
    {
        if let Err(error) = require_text("drop reason", why) {
            return Err(error);
        }
        let work = match self.work.get(work_id) {
            None => {
                return Err(AlderError::not_found("work", work_id));
            },
            Some(work) => work,
        };
        if work.state.is_terminal() {
            return Err(
                invalid_transition(
                    joined3("work `", work_id, "` cannot be dropped from ").concat(
                        work.state.as_title(),
                    ),
                    work_id,
                    work.state,
                ),
            );
        }
        let dropped = closed_work(work, WorkState::Dropped, why.to_owned(), seq);
        let mut next = match self.release(work_id, attempt_id, outcome, seq) {
            Err(error) => {
                return Err(error);
            },
            Ok(next) => next,
        };
        if let Err(error) = next.reject_active_downstream(work_id) {
            return Err(error);
        }
        next.work.insert(work_id.to_owned(), dropped);
        *self = next;
        Ok(())
    }

    fn reopen_work(&mut self, work_id: &str, why: &str, seq: u64) -> (outcome: Result<()>)
        ensures
            follows(
                rules::reopen_work(old(self)@, seq, work_id@, why@),
                old(self)@,
                final(self)@,
                outcome,
            ),
    {
        if let Err(error) = require_text("reopen reason", why) {
            return Err(error);
        }
        let mut work = match self.work.get(work_id) {
            None => {
                return Err(AlderError::not_found("work", work_id));
            },
            Some(work) => work.replica(),
        };
        if !work.state.is_terminal() {
            return Err(
                invalid_transition(
                    joined3("work `", work_id, "` is not terminal"),
                    work_id,
                    work.state,
                ),
            );
        }
        if let Err(error) = self.reject_active_downstream(work_id) {
            return Err(error);
        }
        let waiting = self.unanswered_questions(work_id);
        assert(views::views(waiting@).len() == waiting@.len());
        work.outcome = None;
        work.block_until = None;
        work.changed_seq = seq;
        if waiting.len() > 0 {
            assert(views::views(waiting@)[0] == waiting@[0]@);
            work.state = WorkState::Blocked;
            work.block_reason = Some(joined("question ", waiting[0].as_str()));
        } else {
            work.state = WorkState::Open;
            work.block_reason = None;
        }
        self.work.insert(work_id.to_owned(), work);
        Ok(())
    }

    fn ask(&mut self, question: &QuestionDefinition, seq: u64) -> (outcome: Result<()>)
        ensures
            follows(
                rules::ask(old(self)@, seq, question@),
                old(self)@,
                final(self)@,
                outcome,
            ),
    {
        if let Err(error) = require_text("question", question.text.as_str()) {
            return Err(error);
        }
        if self.questions.contains_key(question.id.as_str()) {
            return Err(
                AlderError::validation(
                    joined3("question `", question.id.as_str(), "` already exists"),
                ),
            );
        }
        let mut work = match self.work.get(question.work_id.as_str()) {
            None => {
                return Err(AlderError::not_found("work", question.work_id.as_str()));
            },
            Some(work) => work.replica(),
        };
        if work.state.is_terminal() {
            return Err(
                AlderError::validation(
                    joined3(
                        "questions cannot be asked against terminal work `",
                        question.work_id.as_str(),
                        "`",
                    ),
                ),
            );
        }
        let open = match work.state {
            WorkState::Open => true,
            _ => false,
        };
        if open {
            work.state = WorkState::Blocked;
            work.block_reason = Some(joined("question ", question.id.as_str()));
        }
        work.changed_seq = seq;
        self.work.insert(question.work_id.clone(), work);
        let asked = Question {
            id: question.id.clone(),
            work_id: question.work_id.clone(),
            text: question.text.clone(),
            answer: None,
            asked_seq: seq,
            answered_seq: None,
            answered_by: None,
            answers: Vec::new(),
        };
        assert(asked@.answers =~= Seq::empty());
        self.questions.insert(question.id.clone(), asked);
        Ok(())
    }

    fn answer_question(
        &mut self,
        question_id: &str,
        answer: &str,
        actor: &str,
        seq: u64,
    ) -> (outcome: Result<()>)
        ensures
            follows(
                rules::answer_question(old(self)@, seq, actor@, question_id@, answer@),
                old(self)@,
                final(self)@,
                outcome,
            ),
    {
        if let Err(error) = require_text("answer", answer) {
            return Err(error);
        }
        let mut question = match self.questions.get(question_id) {
            None => {
                return Err(AlderError::not_found("question", question_id));
            },
            Some(question) => question.replica(),
        };
        let ghost before = question@;
        question.answer = Some(answer.to_owned());
        question.answered_seq = Some(seq);
        question.answered_by = Some(actor.to_owned());
        question.answers.push(
            QuestionAnswer { answer: answer.to_owned(), seq, actor: actor.to_owned() },
        );
        assert(question@.answers =~= before.answers.push(
            crate::question::QuestionAnswerView { answer: answer@, seq, actor: actor@ },
        ));
        self.questions.insert(question_id.to_owned(), question);
        Ok(())
    }

    fn steer(&mut self, payload: &LoopEventPayload, seq: u64) -> (outcome: Result<()>)
        ensures
            follows(
                rules::steer(old(self)@, seq, payload@),
                old(self)@,
                final(self)@,
                outcome,
            ),
    {
        match payload {
            LoopEventPayload::LegacyPassStarted(_) => {},
            LoopEventPayload::LegacyPassEnded(body) => {
                let rotate = match body.get("rotate") {
                    Some(Json::Bool(true)) => true,
                    _ => false,
                };
                if rotate {
                    self.loop_control.rotate_requested_seq = Some(seq);
                }
            },
            LoopEventPayload::LoopPaused { why } => {
                self.loop_control.paused = true;
                self.loop_control.pause_reason = match why {
                    Some(text) => if is_blank(text.as_str()) {
                        None
                    } else {
                        Some(text.clone())
                    },
                    None => None,
                };
            },
            LoopEventPayload::LoopResumed {} => {
                self.loop_control.paused = false;
                self.loop_control.pause_reason = None;
            },
            LoopEventPayload::LoopEngineSelected { engine } => {
                if let Err(error) = require_text("engine", engine.as_str()) {
                    return Err(error);
                }
                self.loop_control.engine = Some(engine.clone());
            },
            LoopEventPayload::LoopRotationRequested { .. } => {
                self.loop_control.rotate_requested_seq = Some(seq);
            },
            LoopEventPayload::LoopNudgeRequested { .. } => {
                self.loop_control.nudge_requested_seq = Some(seq);
            },
        }
        Ok(())
    }

    fn report(&mut self, observation: &ObservationDefinition, seq: u64) -> (outcome: Result<()>)
        ensures
            follows(
                rules::report(old(self)@, seq, observation@),
                old(self)@,
                final(self)@,
                outcome,
            ),
    {
        if let Err(error) = validate_observation_key(&observation.key) {
            return Err(error);
        }
        if let Err(error) = require_text("observation level", observation.level.as_str()) {
            return Err(error);
        }
        self.observations.insert(
            observation.key.replica(),
            Observation {
                key: observation.key.replica(),
                level: observation.level.clone(),
                reported_seq: seq,
            },
        );
        Ok(())
    }

    fn retire(&mut self, key: &ObservationKey) -> (outcome: Result<()>)
        ensures
            follows(rules::retire(old(self)@, key@), old(self)@, final(self)@, outcome),
    {
        if let Err(error) = validate_observation_key(key) {
            return Err(error);
        }
        if !self.observations.contains_key(key) {
            return Err(
                AlderError::with_context(
                    "not_found",
                    "observation key is not current".to_owned(),
                    Json::object().with("field", Json::text(key.field.as_str())).with(
                        "observer",
                        Json::text(key.observer.as_str()),
                    ).with("subject", Json::text(key.subject.as_str())),
                ),
            );
        }
        let _ = self.observations.remove(key);
        Ok(())
    }

    /// Applies a statement about work.
    fn apply_work(&mut self, payload: &WorkEventPayload, seq: u64, actor: &str) -> (outcome: Result<
        (),
    >)
        ensures
            follows(
                rules::work_step(old(self)@, seq, actor@, payload@),
                old(self)@,
                final(self)@,
                outcome,
            ),
    {
        match payload {
            WorkEventPayload::LegacyHandoffSubmitted { .. } => Ok(()),
            WorkEventPayload::LegacyHandoffWithdrawn { .. } => Ok(()),
            WorkEventPayload::LegacyHandoffIntegrated { work, .. } => {
                let mut next = self.replica();
                if let Err(error) = next.add_work(work, seq) {
                    return Err(error);
                }
                if let Err(error) = next.validate_graph() {
                    return Err(error);
                }
                *self = next;
                Ok(())
            },
            WorkEventPayload::WorkChanged { operations, .. } => self.change_work(operations, seq),
            WorkEventPayload::WorkFinished { work_id, attempt_id, external, evidence } => {
                self.finish_work(work_id.as_str(), attempt_id, *external, evidence, seq)
            },
            WorkEventPayload::WorkDropped { work_id, attempt_id, outcome, why } => {
                self.drop_work(work_id.as_str(), attempt_id, *outcome, why.as_str(), seq)
            },
            WorkEventPayload::WorkReopened { work_id, why } => self.reopen_work(
                work_id.as_str(),
                why.as_str(),
                seq,
            ),
            WorkEventPayload::AttemptStarted { attempt } => self.start_attempt(attempt, seq),
            WorkEventPayload::AttemptBound { attempt_id, handle, metadata } => self.bind_attempt(
                attempt_id.as_str(),
                handle.as_str(),
                metadata,
                seq,
            ),
            WorkEventPayload::AttemptUpdated { attempt_id, tier, metadata, note, checks } => {
                self.update_attempt(attempt_id.as_str(), tier, metadata, note, checks, seq)
            },
            WorkEventPayload::AttemptEnded { attempt_id, outcome, why } => self.end_attempt(
                attempt_id.as_str(),
                *outcome,
                why.as_str(),
                seq,
            ),
            WorkEventPayload::QuestionAsked { question } => self.ask(question, seq),
            WorkEventPayload::QuestionAnswered { question_id, answer } => self.answer_question(
                question_id.as_str(),
                answer.as_str(),
                actor,
                seq,
            ),
        }
    }

    /// Applies one event. A refused event leaves the state as it was.
    pub fn apply(&mut self, event: &Event) -> (outcome: Result<()>)
        ensures
            follows(rules::step(old(self)@, event@), old(self)@, final(self)@, outcome),
    {
        match &event.payload {
            EventPayload::Work(payload) => self.apply_work(
                payload,
                event.seq,
                event.actor.as_str(),
            ),
            EventPayload::Observation(
                ObservationEventPayload::ObservationReported { observation },
            ) => self.report(observation, event.seq),
            EventPayload::Observation(ObservationEventPayload::ObservationRetired { key }) => {
                self.retire(key)
            },
            EventPayload::Loop(payload) => self.steer(payload, event.seq),
        }
    }

    /// Folds a log into the state of the project. The events stand in sequence
    /// from one on, each with an ID of its own.
    pub fn fold(events: &[Event]) -> (outcome: Result<ProjectState>)
        ensures
            match rules::folded(views::views(events@)) {
                Ok(state) => outcome matches Ok(s) && s@ == state,
                Err(error) => outcome matches Err(e) && e@ == error,
            },
    {
        let ghost all = views::views(events@);
        let mut state = ProjectState::default();
        let mut seen: Catalog<String, ()> = Catalog::new();
        let mut index: usize = 0;
        assert(all.take(0) =~= Seq::empty());
        while index < events.len()
            invariant
                index <= events@.len(),
                all == views::views(events@),
                rules::folded(all.take(index as int)) == Ok::<StateView, error::ErrorView>(state@),
                forall|k: Seq<char>|
                    seen@.contains_key(k) <==> exists|i: int|
                        0 <= i < index && (#[trigger] all[i]).id == k,
            decreases events@.len() - index,
        {
            let event = &events[index];
            let ghost front = all.take(index as int);
            proof {
                assert(all.take(index + 1).drop_last() =~= front);
                assert(all.take(index + 1).last() == event@);
                assert(all[index as int] == event@);
                if rules::folded(all.take(index + 1)) is Err {
                    folded_extends(all, index + 1);
                }
                assert((exists|i: int|
                    0 <= i < front.len() && (#[trigger] front[i]).id == event@.id)
                    <==> seen@.contains_key(event@.id)) by {
                    if seen@.contains_key(event@.id) {
                        let i = choose|i: int| 0 <= i < index && (#[trigger] all[i]).id == event@.id;
                        assert(front[i].id == event@.id);
                    }
                    if exists|i: int|
                        0 <= i < front.len() && (#[trigger] front[i]).id == event@.id {
                        let i = choose|i: int|
                            0 <= i < front.len() && (#[trigger] front[i]).id == event@.id;
                        assert(all[i].id == event@.id);
                    }
                }
            }
            let expected: u64 = index as u64 + 1;
            if event.seq != expected {
                return Err(
                    AlderError::with_context(
                        "invalid_log",
                        joined3(
                            "event sequence is not contiguous: expected ",
                            decimal_text(expected).as_str(),
                            ", found ",
                        ).concat(decimal_text(event.seq).as_str()),
                        Json::object().with("actual_seq", Json::number(event.seq)).with(
                            "expected_seq",
                            Json::number(expected),
                        ),
                    ),
                );
            }
            if !same_text(event.schema.as_str(), "alder.event.v0") {
                return Err(
                    AlderError::with_context(
                        "invalid_log",
                        joined3("unsupported event schema `", event.schema.as_str(), "`"),
                        Json::object().with("event_id", Json::text(event.id.as_str())).with(
                            "schema",
                            Json::text(event.schema.as_str()),
                        ),
                    ),
                );
            }
            if seen.contains_key(event.id.as_str()) {
                return Err(
                    AlderError::with_context(
                        "invalid_log",
                        joined3("duplicate event ID `", event.id.as_str(), "`"),
                        Json::object().with("event_id", Json::text(event.id.as_str())),
                    ),
                );
            }
            let ghost seen_before = seen@;
            seen.insert(event.id.clone(), ());
            if let Err(error) = state.apply(event) {
                return Err(error);
            }
            proof {
                assert forall|k: Seq<char>|
                    seen@.contains_key(k) <==> exists|i: int|
                        0 <= i < index + 1 && (#[trigger] all[i]).id == k by {
                    if seen@.contains_key(k) && k != event@.id {
                        assert(seen_before.contains_key(k));
                        let i = choose|i: int| 0 <= i < index && (#[trigger] all[i]).id == k;
                        assert(all[i].id == k);
                    }
                    assert(all[index as int].id == event@.id);
                }
            }
            index += 1;
        }
        assert(all.take(index as int) =~= all);
        Ok(state)
    }

    /// Checks that every work ID begins with the configured prefix.
    pub fn validate_prefix(&self, prefix: &str) -> (outcome: Result<()>)
        ensures
            match rules::foreign_key(catalog::listing::<String>(self@.work.dom()), prefix@) {
                Some(id) => outcome matches Err(e) && e@ == rules::prefix_error(prefix@, id),
                None => outcome is Ok,
            },
    {
        let work_prefix = joined(prefix, "-");
        let len = self.work.len();
        let ghost keys = self.work.keys();
        let mut index: usize = 0;
        assert(keys.take(0) =~= Seq::<Seq<char>>::empty());
        while index < len
            invariant
                index <= len,
                len == keys.len(),
                keys == self.work.keys(),
                keys == catalog::listing::<String>(self@.work.dom()),
                work_prefix@ == prefix@ + "-"@,
                rules::foreign_key(keys.take(index as int), prefix@) is None,
            decreases len - index,
        {
            assert(keys.take(index + 1).drop_last() =~= keys.take(index as int));
            let id = self.work.key_at(index).as_str();
            if !begins_with(id, work_prefix.as_str()) {
                proof {
                    foreign_key_extends(keys, prefix@, index + 1);
                }
                return Err(
                    AlderError::with_context(
                        "config_conflict",
                        joined5(
                            "configured prefix `",
                            prefix,
                            "` does not match work `",
                            id,
                            "`",
                        ),
                        Json::object().with("id", Json::text(id)).with(
                            "prefix",
                            Json::text(prefix),
                        ),
                    ),
                );
            }
            index += 1;
        }
        assert(keys.take(index as int) =~= keys);
        Ok(())
    }

    /// Checks that the work graph holds together.
    pub fn validate_graph(&self) -> (outcome: Result<()>)
        ensures
            match graph::graph_error(self@.work) {
                Some(error) => outcome matches Err(e) && e@ == error,
                None => outcome is Ok,
            },
    {
        graph::validate(&self.work)
    }
}

} // verus!

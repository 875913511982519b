//! What the answers of observers change in the observation picture.
//!
//! An observer lists the levels of everything that it watches, or it is asked about
//! one handle at a time. A level about an execution is kept under the ID of its
//! attempt where the observer tells it. A dead worker is a statement and no silence:
//! as long as an attempt runs, what was known to be alive and is not listed any more is
//! absent.

use vstd::prelude::*;

use crate::attempt::{Attempt, AttemptState, AttemptView};
use crate::catalog;
use crate::catalog::Replica;
use crate::config::ObserverConfig;
use crate::documents::{FindingView, ReconcileFinding};
use crate::error::{ErrorView, Result};
use crate::instant::Instant;
use crate::json;
use crate::json::{Json, JsonView};
use crate::laws;
use crate::log::{AppendHook, ProjectLog, SnapshotView};
use crate::observation::{Observation, ObservationKey, ObservationKeyView, ObservationView};
use crate::project::{ProjectState, StateView};
use crate::refresh;
use crate::refresh::{
    record_changes, LevelTold, LevelToldView, ObservationChange, ObservationChangeView,
    ObserverRun,
};
use crate::selection;
use crate::selection::{chosen, values_of, Test};
use crate::status;
use crate::status::{in_flight_attempts, liveness_level};
use crate::store;
use crate::store::Store;
use crate::text;
use crate::text::{joined3, same_text, trim_text};
use crate::views;

verus! {

// ---- whom a listing is about ----

/// Whether there is such an attempt and it has not ended.
pub open spec fn runs_still(s: StateView, attempt_id: Seq<char>) -> bool {
    s.attempts.contains_key(attempt_id) && !(s.attempts[attempt_id].state is Ended)
}

fn still_running(state: &ProjectState, attempt_id: &str) -> (running: bool)
    ensures
        running == runs_still(state@, attempt_id@),
{
    match state.attempts.get(attempt_id) {
        Some(attempt) => match attempt.state {
            AttemptState::Ended => false,
            _ => true,
        },
        None => false,
    }
}

/// An item of a listing: a level, or a handle that is alive, with the attempt that it
/// says it works for.
#[derive(Debug)]
pub enum Listed {
    Level { subject: String, field: String, level: String },
    Handle { value: String, attempt_id: Option<String> },
}

pub open spec fn levels_in(item: Listed) -> Seq<LevelToldView> {
    match item {
        Listed::Level { subject, field, level } => seq![
            LevelToldView { subject: subject@, field: field@, level: level@ },
        ],
        Listed::Handle { value, attempt_id } => {
            let alive = LevelToldView { subject: value@, field: "liveness"@, level: "present"@ };
            match attempt_id {
                Some(id) => seq![
                    alive,
                    LevelToldView { subject: value@, field: "attempt-id"@, level: id@ },
                ],
                None => seq![alive],
            }
        },
    }
}

/// The levels of a whole listing, as they are told.
pub open spec fn levels_listed(items: Seq<Listed>) -> Seq<LevelToldView>
    decreases items.len(),
{
    if items.len() == 0 {
        Seq::empty()
    } else {
        levels_listed(items.drop_last()) + levels_in(items.last())
    }
}

fn list_levels(items: &Vec<Listed>) -> (levels: Vec<LevelTold>)
    ensures
        views::views(levels@) == levels_listed(items@),
{
    let mut levels: Vec<LevelTold> = Vec::new();
    let mut index: usize = 0;
    assert(items@.take(0) =~= Seq::<Listed>::empty());
    assert(views::views(levels@) =~= Seq::<LevelToldView>::empty());
    while index < items.len()
        invariant
            index <= items@.len(),
            views::views(levels@) == levels_listed(items@.take(index as int)),
        decreases items@.len() - index,
    {
        assert(items@.take(index + 1).drop_last() =~= items@.take(index as int));
        let ghost before = views::views(levels@);
        match &items[index] {
            Listed::Level { subject, field, level } => {
                levels.push(
                    LevelTold {
                        subject: subject.clone(),
                        field: field.clone(),
                        level: level.clone(),
                    },
                );
            },
            Listed::Handle { value, attempt_id } => {
                levels.push(
                    LevelTold {
                        subject: value.clone(),
                        field: "liveness".to_owned(),
                        level: "present".to_owned(),
                    },
                );
                if let Some(id) = attempt_id {
                    levels.push(
                        LevelTold {
                            subject: value.clone(),
                            field: "attempt-id".to_owned(),
                            level: id.clone(),
                        },
                    );
                }
            },
        }
        assert(views::views(levels@) =~= before + levels_in(items@[index as int]));
        index += 1;
    }
    assert(items@.take(index as int) =~= items@);
    levels
}

/// Whether a level says which attempt a subject works for, and there is such an
/// attempt.
pub open spec fn attributes(s: StateView, told: LevelToldView, subject: Seq<char>) -> bool {
    told.subject == subject && told.field == "attempt-id"@ && s.attempts.contains_key(told.level)
}

/// Whom a level is about: the attempt that its subject is said to work for, or else
/// the subject as the observer calls it.
pub open spec fn worker_of(s: StateView, levels: Seq<LevelToldView>, subject: Seq<char>) -> Seq<
    char,
>
    decreases levels.len(),
{
    if levels.len() == 0 {
        subject
    } else if attributes(s, levels.last(), subject) {
        levels.last().level
    } else {
        worker_of(s, levels.drop_last(), subject)
    }
}

fn find_worker(state: &ProjectState, levels: &Vec<LevelTold>, subject: &str) -> (worker: String)
    ensures
        worker@ == worker_of(state@, views::views(levels@), subject@),
{
    let ghost all = views::views(levels@);
    let mut worker = subject.to_owned();
    let mut index: usize = 0;
    assert(all.take(0) =~= Seq::<LevelToldView>::empty());
    while index < levels.len()
        invariant
            index <= levels@.len(),
            all == views::views(levels@),
            worker@ == worker_of(state@, all.take(index as int), subject@),
        decreases levels@.len() - index,
    {
        let told = &levels[index];
        proof {
            assert(all.take(index + 1).drop_last() =~= all.take(index as int));
            assert(all.take(index + 1).last() == told@);
        }
        if same_text(told.subject.as_str(), subject) && same_text(
            told.field.as_str(),
            "attempt-id",
        ) && state.attempts.contains_key(told.level.as_str()) {
            worker = told.level.clone();
        }
        index += 1;
    }
    assert(all.take(index as int) =~= all);
    worker
}

pub open spec fn attributed(s: StateView, levels: Seq<LevelToldView>) -> spec_fn(
    LevelToldView,
) -> LevelToldView {
    |l: LevelToldView|
        LevelToldView {
            subject: worker_of(s, levels, l.subject),
            field: l.field,
            level: l.level,
        }
}

/// The levels of a listing, each under the attempt that it is about where the listing
/// says so. Handles are never taken apart.
pub fn normalize(state: &ProjectState, items: &Vec<Listed>) -> (levels: Vec<LevelTold>)
    ensures
        views::views(levels@) == levels_listed(items@).map_values(
            attributed(state@, levels_listed(items@)),
        ),
{
    let told = list_levels(items);
    let ghost all = views::views(told@);
    let mut levels: Vec<LevelTold> = Vec::new();
    let mut index: usize = 0;
    while index < told.len()
        invariant
            index <= told@.len(),
            all == views::views(told@),
            levels@.len() == index,
            forall|i: int|
                0 <= i < index ==> (#[trigger] levels@[i])@ == attributed(state@, all)(all[i]),
        decreases told@.len() - index,
    {
        let level = &told[index];
        assert(all[index as int] == level@);
        levels.push(
            LevelTold {
                subject: find_worker(state, &told, level.subject.as_str()),
                field: level.field.clone(),
                level: level.level.clone(),
            },
        );
        index += 1;
    }
    assert(views::views(levels@) =~= all.map_values(attributed(state@, all)));
    levels
}

// ---- what a run changes ----

pub open spec fn key_told(kind: Seq<char>, told: LevelToldView) -> ObservationKeyView {
    ObservationKeyView { observer: kind, subject: told.subject, field: told.field }
}

pub open spec fn is_told(
    kind: Seq<char>,
    levels: Seq<LevelToldView>,
    key: ObservationKeyView,
) -> bool {
    exists|i: int| 0 <= i < levels.len() && key_told(kind, #[trigger] levels[i]) == key
}

/// What becomes of a key that a complete listing leaves out: whoever was alive and
/// still should be is absent; anything else is retired.
pub open spec fn silence(s: StateView, key: ObservationKeyView) -> Option<Seq<char>> {
    if key.field == "liveness"@ && runs_still(s, key.subject) {
        Some("absent"@)
    } else {
        None
    }
}

pub open spec fn left_out(kind: Seq<char>, levels: Seq<LevelToldView>) -> spec_fn(
    ObservationView,
) -> bool {
    |o: ObservationView| o.key.observer == kind && !is_told(kind, levels, o.key)
}

pub open spec fn told_change(kind: Seq<char>) -> spec_fn(LevelToldView) -> ObservationChangeView {
    |l: LevelToldView| ObservationChangeView { key: key_told(kind, l), level: Some(l.level) }
}

pub open spec fn silent_change(s: StateView) -> spec_fn(ObservationView) -> ObservationChangeView {
    |o: ObservationView| ObservationChangeView { key: o.key, level: silence(s, o.key) }
}

/// A complete listing: the levels as they are told, and then the keys of this
/// observer that it leaves out.
pub open spec fn list_plan(s: StateView, kind: Seq<char>, levels: Seq<LevelToldView>) -> Seq<
    ObservationChangeView,
> {
    levels.map_values(told_change(kind)) + selection::values::<ObservationKey, ObservationView>(
        s.observations,
    ).filter(left_out(kind, levels)).map_values(silent_change(s))
}

pub struct LeftOut<'a> {
    pub kind: &'a str,
    pub levels: &'a Vec<LevelTold>,
}

impl<'a> Test<Observation> for LeftOut<'a> {
    open spec fn test(&self) -> spec_fn(ObservationView) -> bool {
        left_out(self.kind@, views::views(self.levels@))
    }

    fn passes(&self, item: &Observation) -> (passes: bool) {
        let levels = self.levels;
        if !same_text(item.key.observer.as_str(), self.kind) {
            return false;
        }
        let ghost told = views::views(levels@);
        let mut index: usize = 0;
        while index < levels.len()
            invariant
                index <= levels@.len(),
                told == views::views(self.levels@),
                levels@ == self.levels@,
                item.key@.observer == self.kind@,
                forall|i: int|
                    0 <= i < index ==> key_told(self.kind@, #[trigger] told[i]) != item.key@,
            decreases levels@.len() - index,
        {
            let level = &levels[index];
            assert(told[index as int] == level@);
            if same_text(level.subject.as_str(), item.key.subject.as_str()) && same_text(
                level.field.as_str(),
                item.key.field.as_str(),
            ) {
                assert(key_told(self.kind@, told[index as int]) == item.key@);
                return false;
            }
            index += 1;
        }
        true
    }
}

/// The changes that a complete listing makes.
pub fn plan_observer_run(state: &ProjectState, kind: &str, levels: &Vec<LevelTold>) -> (changes: Vec<
    ObservationChange,
>)
    ensures
        views::views(changes@) == list_plan(state@, kind@, views::views(levels@)),
{
    let ghost told = views::views(levels@);
    let mut changes: Vec<ObservationChange> = Vec::new();
    let mut index: usize = 0;
    while index < levels.len()
        invariant
            index <= levels@.len(),
            told == views::views(levels@),
            changes@.len() == index,
            forall|i: int|
                0 <= i < index ==> (#[trigger] changes@[i])@ == told_change(kind@)(told[i]),
        decreases levels@.len() - index,
    {
        let level = &levels[index];
        assert(told[index as int] == level@);
        changes.push(
            ObservationChange {
                key: ObservationKey {
                    observer: kind.to_owned(),
                    subject: level.subject.clone(),
                    field: level.field.clone(),
                },
                level: Some(level.level.clone()),
            },
        );
        index += 1;
    }
    let ghost first = told.map_values(told_change(kind@));
    assert(views::views(changes@) =~= first);
    let all = values_of(&state.observations);
    let silent = chosen(&all, &LeftOut { kind, levels });
    let ghost quiet = views::views(silent@);
    let mut next: usize = 0;
    while next < silent.len()
        invariant
            next <= silent@.len(),
            quiet == views::views(silent@),
            changes@.len() == first.len() + next,
            forall|i: int| 0 <= i < first.len() ==> (#[trigger] changes@[i])@ == first[i],
            forall|i: int|
                first.len() <= i < first.len() + next ==> (#[trigger] changes@[i])@
                    == silent_change(state@)(quiet[i - first.len()]),
        decreases silent@.len() - next,
    {
        let key = &silent[next].key;
        assert(quiet[next as int] == silent@[next as int]@);
        let level = if same_text(key.field.as_str(), "liveness") && still_running(
            state,
            key.subject.as_str(),
        ) {
            Some("absent".to_owned())
        } else {
            None
        };
        changes.push(ObservationChange { key: key.replica(), level });
        next += 1;
    }
    assert(views::views(changes@) =~= list_plan(state@, kind@, told));
    changes
}

/// What an answer about one handle changes: the level is as it is told, but the watch
/// over an attempt that has ended is over once it is absent.
pub open spec fn probe_change(s: StateView, kind: Seq<char>) -> spec_fn(
    LevelToldView,
) -> ObservationChangeView {
    |l: LevelToldView|
        ObservationChangeView {
            key: key_told(kind, l),
            level: if l.field == "liveness"@ && l.level == "absent"@ && !runs_still(s, l.subject) {
                None
            } else {
                Some(l.level)
            },
        }
}

/// The changes that answers about handles make. An answer says nothing about what it
/// was not asked.
pub fn plan_probe_run(state: &ProjectState, kind: &str, levels: &Vec<LevelTold>) -> (changes: Vec<
    ObservationChange,
>)
    ensures
        views::views(changes@) == views::views(levels@).map_values(probe_change(state@, kind@)),
{
    let ghost told = views::views(levels@);
    let mut changes: Vec<ObservationChange> = Vec::new();
    let mut index: usize = 0;
    while index < levels.len()
        invariant
            index <= levels@.len(),
            told == views::views(levels@),
            changes@.len() == index,
            forall|i: int|
                0 <= i < index ==> (#[trigger] changes@[i])@ == probe_change(
                    state@,
                    kind@,
                )(told[i]),
        decreases levels@.len() - index,
    {
        let level = &levels[index];
        assert(told[index as int] == level@);
        let over = same_text(level.field.as_str(), "liveness") && same_text(
            level.level.as_str(),
            "absent",
        ) && !still_running(state, level.subject.as_str());
        changes.push(
            ObservationChange {
                key: ObservationKey {
                    observer: kind.to_owned(),
                    subject: level.subject.clone(),
                    field: level.field.clone(),
                },
                level: if over {
                    None
                } else {
                    Some(level.level.clone())
                },
            },
        );
        index += 1;
    }
    assert(views::views(changes@) =~= told.map_values(probe_change(state@, kind@)));
    changes
}

// ---- whom to ask ----

/// A handle to ask about, and the attempt that has it.
#[derive(Debug, PartialEq, Eq)]
pub struct Target {
    pub attempt_id: String,
    pub handle: String,
}

#[verifier::ext_equal]
pub struct TargetView {
    pub attempt_id: Seq<char>,
    pub handle: Seq<char>,
}

impl View for Target {
    type V = TargetView;

    open spec fn view(&self) -> TargetView {
        TargetView { attempt_id: self.attempt_id@, handle: self.handle@ }
    }
}

/// Whether an attempt is watched: it has a handle, and it runs or this observer still
/// has a level about its being alive.
pub open spec fn watched(s: StateView, kind: Seq<char>) -> spec_fn(AttemptView) -> bool {
    |a: AttemptView|
        a.handle is Some && (!(a.state is Ended) || s.observations.contains_key(
            ObservationKeyView { observer: kind, subject: a.id, field: "liveness"@ },
        ))
}

pub open spec fn target() -> spec_fn(AttemptView) -> TargetView {
    |a: AttemptView| TargetView { attempt_id: a.id, handle: a.handle->0 }
}

pub struct Watched<'a> {
    pub state: &'a ProjectState,
    pub kind: &'a str,
}

impl<'a> Test<Attempt> for Watched<'a> {
    open spec fn test(&self) -> spec_fn(AttemptView) -> bool {
        watched(self.state@, self.kind@)
    }

    fn passes(&self, item: &Attempt) -> (passes: bool) {
        if item.handle.is_none() {
            return false;
        }
        let running = match item.state {
            AttemptState::Ended => false,
            _ => true,
        };
        running || self.state.observations.contains_key(
            &ObservationKey {
                observer: self.kind.to_owned(),
                subject: item.id.clone(),
                field: "liveness".to_owned(),
            },
        )
    }
}

/// The handles that an observer is to be asked about.
pub fn probe_targets(state: &ProjectState, kind: &str) -> (targets: Vec<Target>)
    ensures
        views::views(targets@) == selection::values::<String, AttemptView>(state@.attempts).filter(
            watched(state@, kind@),
        ).map_values(target()),
{
    let all = values_of(&state.attempts);
    let found = chosen(&all, &Watched { state, kind });
    let ghost attempts = views::views(found@);
    let mut targets: Vec<Target> = Vec::new();
    let mut index: usize = 0;
    proof {
        broadcast use vstd::seq_lib::group_filter_ensures;

    }
    while index < found.len()
        invariant
            index <= found@.len(),
            attempts == views::views(found@),
            targets@.len() == index,
            forall|i: int|
                0 <= i < attempts.len() ==> watched(state@, kind@)(#[trigger] attempts[i]),
            forall|i: int| 0 <= i < index ==> (#[trigger] targets@[i])@ == target()(attempts[i]),
        decreases found@.len() - index,
    {
        let attempt = &found[index];
        assert(attempts[index as int] == attempt@);
        if let Some(handle) = &attempt.handle {
            targets.push(Target { attempt_id: attempt.id.clone(), handle: handle.clone() });
        }
        index += 1;
    }
    assert(views::views(targets@) =~= attempts.map_values(target()));
    targets
}

/// The answers that can be given about a handle.
pub open spec fn is_answer(word: Seq<char>) -> bool {
    word == "present"@ || word == "absent"@ || word == "unknown"@
}

/// The level that a printed answer tells of an attempt, if exactly one of the words was
/// printed.
pub fn probe_level(target: &Target, printed: &str) -> (level: Option<LevelTold>)
    ensures
        views::opt_view(level) == (if is_answer(text::trimmed(printed@)) {
            Some(
                LevelToldView {
                    subject: target@.attempt_id,
                    field: "liveness"@,
                    level: text::trimmed(printed@),
                },
            )
        } else {
            None
        }),
{
    let word = trim_text(printed);
    if same_text(word.as_str(), "present") || same_text(word.as_str(), "absent") || same_text(
        word.as_str(),
        "unknown",
    ) {
        Some(
            LevelTold {
                subject: target.attempt_id.clone(),
                field: "liveness".to_owned(),
                level: word,
            },
        )
    } else {
        None
    }
}

// ---- what is found of the attempts ----

/// Whether the newest that is known of an attempt is that it is absent.
pub open spec fn observed_absent(s: StateView) -> spec_fn(AttemptView) -> bool {
    |a: AttemptView| status::liveness(s, a.id) == Some("absent"@)
}

pub open spec fn missing(attempt: AttemptView) -> FindingView {
    FindingView {
        kind: "missing"@,
        attempt_id: Some(attempt.id),
        handle: attempt.handle,
        status: "absent"@,
        detail: "`"@ + attempt.id + "` runs and is observed absent"@,
        suggested_command: Some(
            "alder attempt end "@ + attempt.id + " --outcome lost --why \"observed absent\""@,
        ),
        metadata: json::empty_object().with("work_id"@, JsonView::Text(attempt.work_id)),
    }
}

pub struct Absent<'a> {
    pub state: &'a ProjectState,
}

impl<'a> Test<Attempt> for Absent<'a> {
    open spec fn test(&self) -> spec_fn(AttemptView) -> bool {
        observed_absent(self.state@)
    }

    fn passes(&self, item: &Attempt) -> (passes: bool) {
        match liveness_level(self.state, item.id.as_str()) {
            Some(level) => same_text(level.as_str(), "absent"),
            None => false,
        }
    }
}

/// A finding for each attempt that runs as far as the log knows and is observed
/// absent. Nothing is concluded from silence.
pub open spec fn missing_workers(s: StateView) -> Seq<FindingView> {
    status::in_flight(s).filter(observed_absent(s)).map_values(|a: AttemptView| missing(a))
}

fn find_missing(state: &ProjectState) -> (findings: Vec<ReconcileFinding>)
    ensures
        views::views(findings@) == missing_workers(state@),
{
    let running = in_flight_attempts(state);
    let gone = chosen(&running, &Absent { state });
    let ghost attempts = views::views(gone@);
    let mut findings: Vec<ReconcileFinding> = Vec::new();
    let mut index: usize = 0;
    while index < gone.len()
        invariant
            index <= gone@.len(),
            attempts == views::views(gone@),
            findings@.len() == index,
            forall|i: int| 0 <= i < index ==> (#[trigger] findings@[i])@ == missing(attempts[i]),
        decreases gone@.len() - index,
    {
        let attempt = &gone[index];
        let id = attempt.id.as_str();
        assert(attempts[index as int] == attempt@);
        findings.push(
            ReconcileFinding {
                kind: "missing".to_owned(),
                attempt_id: Some(attempt.id.clone()),
                handle: views::opt_replica(&attempt.handle),
                status: "absent".to_owned(),
                detail: joined3("`", id, "` runs and is observed absent"),
                suggested_command: Some(
                    joined3("alder attempt end ", id, " --outcome lost --why \"observed absent\""),
                ),
                metadata: Json::object().with("work_id", Json::text(attempt.work_id.as_str())),
            },
        );
        index += 1;
    }
    assert(views::views(findings@) =~= missing_workers(state@));
    findings
}

/// Whether an attempt has ended and the newest that is known of it is that it is
/// present.
pub open spec fn outlived(s: StateView) -> spec_fn(AttemptView) -> bool {
    |a: AttemptView| a.state is Ended && status::liveness(s, a.id) == Some("present"@)
}

pub open spec fn orphan(attempt: AttemptView) -> FindingView {
    FindingView {
        kind: "orphan"@,
        attempt_id: Some(attempt.id),
        handle: attempt.handle,
        status: "present"@,
        detail: "`"@ + attempt.id + "` has ended and is observed present"@,
        suggested_command: None,
        metadata: json::empty_object().with("work_id"@, JsonView::Text(attempt.work_id)),
    }
}

pub struct Outlived<'a> {
    pub state: &'a ProjectState,
}

impl<'a> Test<Attempt> for Outlived<'a> {
    open spec fn test(&self) -> spec_fn(AttemptView) -> bool {
        outlived(self.state@)
    }

    fn passes(&self, item: &Attempt) -> (passes: bool) {
        match item.state {
            AttemptState::Ended => match liveness_level(self.state, item.id.as_str()) {
                Some(level) => same_text(level.as_str(), "present"),
                None => false,
            },
            _ => false,
        }
    }
}

/// A finding for each attempt that has ended and whose worker is observed to be there
/// still.
pub open spec fn orphans(s: StateView) -> Seq<FindingView> {
    selection::values::<String, AttemptView>(s.attempts).filter(outlived(s)).map_values(
        |a: AttemptView| orphan(a),
    )
}

fn find_orphans(state: &ProjectState) -> (findings: Vec<ReconcileFinding>)
    ensures
        views::views(findings@) == orphans(state@),
{
    let all = values_of(&state.attempts);
    let left = chosen(&all, &Outlived { state });
    let ghost attempts = views::views(left@);
    let mut findings: Vec<ReconcileFinding> = Vec::new();
    let mut index: usize = 0;
    while index < left.len()
        invariant
            index <= left@.len(),
            attempts == views::views(left@),
            findings@.len() == index,
            forall|i: int| 0 <= i < index ==> (#[trigger] findings@[i])@ == orphan(attempts[i]),
        decreases left@.len() - index,
    {
        let attempt = &left[index];
        assert(attempts[index as int] == attempt@);
        findings.push(
            ReconcileFinding {
                kind: "orphan".to_owned(),
                attempt_id: Some(attempt.id.clone()),
                handle: views::opt_replica(&attempt.handle),
                status: "present".to_owned(),
                detail: joined3("`", attempt.id.as_str(), "` has ended and is observed present"),
                suggested_command: None,
                metadata: Json::object().with("work_id", Json::text(attempt.work_id.as_str())),
            },
        );
        index += 1;
    }
    assert(views::views(findings@) =~= orphans(state@));
    findings
}

/// What the levels say against the attempts: who is missing, and who is left over.
/// These two follow from the folded levels alone. The kind `finished` is not given: of
/// the levels `present`, `absent` and `unknown` none says that a worker is through. Nor
/// are `unspawned` and `observation_unknown`: they conclude something from what an
/// observer did not tell, and no rule here says which observer was to tell it of an
/// attempt, since a handle is opaque and names none.
pub open spec fn disagreements(s: StateView) -> Seq<FindingView> {
    missing_workers(s) + orphans(s)
}

/// Holds the attempts against the levels that are known of them. Findings of the kinds
/// `missing` and `orphan` are given; `finished`, `unspawned` and `observation_unknown`
/// are not, since the folded levels do not settle them. Whoever can tell them adds them
/// to what is handed to `refresh::reconcile` and to the status, which take any findings.
pub fn reconcile_attempts(state: &ProjectState) -> (findings: Vec<ReconcileFinding>)
    ensures
        views::views(findings@) == disagreements(state@),
{
    let mut findings = find_missing(state);
    let mut left = find_orphans(state);
    let ghost first = views::views(findings@);
    let ghost second = views::views(left@);
    findings.append(&mut left);
    assert(views::views(findings@) =~= first + second);
    findings
}

/// What is found of the attempts and settled by the log alone is among what needs
/// attention in the status.
proof fn findings_need_attention(
    s: StateView,
    found: Seq<FindingView>,
    finding: FindingView,
    now: Instant,
)
    requires
        found.contains(finding),
        status::settled()(finding),
    ensures
        status::board(s, found, now).attention.contains(finding),
{
    broadcast use vstd::seq_lib::group_filter_ensures;

    let i = choose|i: int| 0 <= i < found.len() && found[i] == finding;
    assert(status::settled()(found[i]));
    let kept = found.filter(status::settled());
    assert(kept.contains(found[i]));
    let k = choose|k: int| 0 <= k < kept.len() && kept[k] == finding;
    assert((kept + status::expiries(s, now))[k] == finding);
}

/// A worker that is observed absent while its attempt runs is among what needs
/// attention in the status, with the command that ends the attempt.
pub proof fn absent_workers_need_attention(s: StateView, attempt: AttemptView, now: Instant)
    requires
        status::in_flight(s).contains(attempt),
        status::liveness(s, attempt.id) == Some("absent"@),
    ensures
        status::board(s, disagreements(s), now).attention.contains(missing(attempt)),
{
    broadcast use vstd::seq_lib::group_filter_ensures;

    let running = status::in_flight(s);
    let gone = running.filter(observed_absent(s));
    let i = choose|i: int| 0 <= i < running.len() && running[i] == attempt;
    assert(observed_absent(s)(running[i]));
    assert(gone.contains(running[i]));
    let j = choose|j: int| 0 <= j < gone.len() && gone[j] == attempt;
    assert(missing_workers(s)[j] == missing(attempt));
    assert(disagreements(s)[j] == missing(attempt));
    findings_need_attention(s, disagreements(s), missing(attempt), now);
}

/// A worker that is observed present although its attempt has ended is among what needs
/// attention in the status.
pub proof fn leftover_workers_need_attention(s: StateView, id: Seq<char>, now: Instant)
    requires
        laws::keyed(s),
        s.attempts.contains_key(id),
        s.attempts[id].state is Ended,
        status::liveness(s, id) == Some("present"@),
    ensures
        status::board(s, disagreements(s), now).attention.contains(orphan(s.attempts[id])),
{
    broadcast use vstd::seq_lib::group_filter_ensures;

    let keys = catalog::listing::<String>(s.attempts.dom());
    let all = selection::values::<String, AttemptView>(s.attempts);
    catalog::listing_exists::<String>(s.attempts.dom());
    assert(keys.to_set().contains(id));
    let i = choose|i: int| 0 <= i < keys.len() && keys[i] == id;
    assert(all[i] == s.attempts[id]);
    assert(outlived(s)(all[i]));
    let left = all.filter(outlived(s));
    assert(left.contains(all[i]));
    let j = choose|j: int| 0 <= j < left.len() && left[j] == s.attempts[id];
    let at = missing_workers(s).len() + j;
    assert(orphans(s)[j] == orphan(s.attempts[id]));
    assert(disagreements(s)[at] == orphan(s.attempts[id]));
    findings_need_attention(s, disagreements(s), orphan(s.attempts[id]), now);
}

// ---- how often to ask ----

/// How often an observer is executed for one answer.
pub const MAX_EXECUTIONS: u64 = 4;

/// How long an execution may take.
pub const TIMEOUT_SECONDS: u64 = 20;

/// What follows an execution.
#[derive(Debug, Clone, Copy, PartialEq, Eq)]
pub enum NextExecution {
    Again,
    Done,
}

/// An observer whose answer cannot be read is executed again, a few times at most.
pub fn after_execution(executions: u64, readable: bool) -> (next: NextExecution)
    ensures
        next is Again <==> !readable && executions < MAX_EXECUTIONS,
{
    if !readable && executions < MAX_EXECUTIONS {
        NextExecution::Again
    } else {
        NextExecution::Done
    }
}

// ---- applying runs ----

/// Whether an observer is asked about one handle at a time.
pub open spec fn probes(observers: Seq<ObserverConfig>, kind: Seq<char>) -> bool {
    exists|i: int|
        0 <= i < observers.len() && (#[trigger] observers[i]).observer@ == kind
            && observers[i].probe is Some
}

fn is_probe(observers: &Vec<ObserverConfig>, kind: &str) -> (probe: bool)
    ensures
        probe == probes(observers@, kind@),
{
    let mut index: usize = 0;
    while index < observers.len()
        invariant
            index <= observers@.len(),
            forall|i: int|
                0 <= i < index ==> !((#[trigger] observers@[i]).observer@ == kind@
                    && observers@[i].probe is Some),
        decreases observers@.len() - index,
    {
        if same_text(observers[index].observer.as_str(), kind) && observers[index].probe.is_some() {
            assert(observers@[index as int].observer@ == kind@);
            return true;
        }
        index += 1;
    }
    false
}

/// The changes that a run makes of a project.
pub open spec fn run_plan(s: StateView, observers: Seq<ObserverConfig>, run: ObserverRun) -> Seq<
    ObservationChangeView,
> {
    let levels = views::views(run.normalized@);
    if probes(observers, run.kind@) {
        levels.map_values(probe_change(s, run.kind@))
    } else {
        list_plan(s, run.kind@, levels)
    }
}

/// A sum, as far as the machine can count.
pub open spec fn capped(a: nat, b: nat) -> nat {
    if a + b > usize::MAX {
        usize::MAX as nat
    } else {
        a + b
    }
}

fn capped_sum(a: usize, b: usize) -> (sum: usize)
    ensures
        sum == capped(a as nat, b as nat),
{
    if a > usize::MAX - b {
        usize::MAX
    } else {
        a + b
    }
}

pub open spec fn summed(a: (nat, nat), more: refresh::Count) -> refresh::Count {
    match more {
        Err(error) => Err(error),
        Ok(b) => Ok((capped(a.0, b.0), capped(a.1, b.1))),
    }
}

/// A successful run is planned against the project as it is at that moment.
pub open spec fn run_recorded<S: Store, H: AppendHook>(
    middle: ProjectLog<S, H>,
    after: ProjectLog<S, H>,
    observers: Seq<ObserverConfig>,
    run: ObserverRun,
    so_far: (nat, nat),
    count: refresh::Count,
    answer: core::result::Result<SnapshotView, ErrorView>,
    more: refresh::Count,
) -> bool {
    &&& middle.snapshots(answer)
    &&& match answer {
        Err(error) => after == middle && count == Err::<(nat, nat), ErrorView>(error),
        Ok(snapshot) => refresh::recorded(
            middle,
            after,
            run_plan(snapshot.state, observers, run),
            more,
        ) && count == summed(so_far, more),
    }
}

/// One more run is applied, unless one before it has failed to be.
pub open spec fn run_applied<S: Store, H: AppendHook>(
    middle: ProjectLog<S, H>,
    after: ProjectLog<S, H>,
    observers: Seq<ObserverConfig>,
    run: ObserverRun,
    front: refresh::Count,
    count: refresh::Count,
) -> bool {
    match front {
        Err(error) => after == middle && count == front,
        Ok(so_far) => if !run.success {
            after == middle && count == front
        } else {
            exists|
                answer: core::result::Result<SnapshotView, ErrorView>,
                more: refresh::Count,
            | #[trigger]
                run_recorded(middle, after, observers, run, so_far, count, answer, more)
        },
    }
}

/// The runs are applied one after the other. A run that did not succeed says
/// nothing.
pub open spec fn applied<S: Store, H: AppendHook>(
    log: ProjectLog<S, H>,
    after: ProjectLog<S, H>,
    observers: Seq<ObserverConfig>,
    runs: Seq<ObserverRun>,
    count: refresh::Count,
) -> bool
    decreases runs.len(),
{
    if runs.len() == 0 {
        after == log && count == Ok::<(nat, nat), ErrorView>((0, 0))
    } else {
        exists|middle: ProjectLog<S, H>, front: refresh::Count| #[trigger]
            run_applied(middle, after, observers, runs.last(), front, count) && applied(
                log,
                middle,
                observers,
                runs.drop_last(),
                front,
            )
    }
}

proof fn failures_end_it<S: Store, H: AppendHook>(
    log: ProjectLog<S, H>,
    after: ProjectLog<S, H>,
    observers: Seq<ObserverConfig>,
    runs: Seq<ObserverRun>,
    n: int,
    count: refresh::Count,
)
    requires
        0 <= n <= runs.len(),
        count is Err,
        applied(log, after, observers, runs.take(n), count),
    ensures
        applied(log, after, observers, runs, count),
    decreases runs.len() - n,
{
    if n == runs.len() {
        assert(runs.take(n) =~= runs);
    } else {
        assert(runs.take(n + 1).drop_last() =~= runs.take(n));
        assert(run_applied(after, after, observers, runs.take(n + 1).last(), count, count));
        failures_end_it(log, after, observers, runs, n + 1, count);
    }
}

proof fn recorded_runs_are_applied<S: Store, H: AppendHook>(
    middle: ProjectLog<S, H>,
    after: ProjectLog<S, H>,
    observers: Seq<ObserverConfig>,
    run: ObserverRun,
    so_far: (nat, nat),
    count: refresh::Count,
    answer: core::result::Result<SnapshotView, ErrorView>,
    more: refresh::Count,
)
    requires
        run.success,
        run_recorded(middle, after, observers, run, so_far, count, answer, more),
    ensures
        run_applied(middle, after, observers, run, Ok(so_far), count),
{
    let front = Ok::<(nat, nat), ErrorView>(so_far);
    assert(run_recorded(middle, after, observers, run, front->Ok_0, count, answer, more));
}

/// Applies one run behind others that came to `appended` and `retired`.
fn apply_run<S: Store, H: AppendHook>(
    log: &mut ProjectLog<S, H>,
    observers: &Vec<ObserverConfig>,
    run: &ObserverRun,
    appended: usize,
    retired: usize,
) -> (outcome: Result<(usize, usize)>)
    ensures
        run_applied(
            *old(log),
            *final(log),
            observers@,
            *run,
            Ok::<(nat, nat), ErrorView>((appended as nat, retired as nat)),
            refresh::count_told(outcome),
        ),
{
    if !run.success {
        return Ok((appended, retired));
    }
    let ghost middle = *log;
    let ghost so_far = (appended as nat, retired as nat);
    let answer = log.snapshot();
    let ghost told = store::told(answer);
    let snapshot = match answer {
        Err(error) => {
            proof {
                let count = Err::<(nat, nat), ErrorView>(error@);
                recorded_runs_are_applied(
                    middle,
                    *log,
                    observers@,
                    *run,
                    so_far,
                    count,
                    told,
                    count,
                );
            }
            return Err(error);
        },
        Ok(snapshot) => snapshot,
    };
    let kind = run.kind.as_str();
    let changes = if is_probe(observers, kind) {
        plan_probe_run(&snapshot.state, kind, &run.normalized)
    } else {
        plan_observer_run(&snapshot.state, kind, &run.normalized)
    };
    let recorded = record_changes(log, &changes);
    let ghost more = refresh::count_told(recorded);
    proof {
        recorded_runs_are_applied(
            middle,
            *log,
            observers@,
            *run,
            so_far,
            summed(so_far, more),
            told,
            more,
        );
    }
    match recorded {
        Err(error) => Err(error),
        Ok((news, gone)) => Ok((capped_sum(appended, news), capped_sum(retired, gone))),
    }
}

/// Records what the runs have told. The counts are of the changes that were news, and
/// of the retirements among them.
pub fn apply_refresh<S: Store, H: AppendHook>(
    log: &mut ProjectLog<S, H>,
    observers: &Vec<ObserverConfig>,
    runs: &Vec<ObserverRun>,
) -> (outcome: Result<(usize, usize)>)
    ensures
        applied(*old(log), *final(log), observers@, runs@, refresh::count_told(outcome)),
{
    let ghost start = *log;
    let mut appended: usize = 0;
    let mut retired: usize = 0;
    let mut index: usize = 0;
    assert(runs@.take(0) =~= Seq::<ObserverRun>::empty());
    while index < runs.len()
        invariant
            index <= runs@.len(),
            start == *old(log),
            applied(
                start,
                *log,
                observers@,
                runs@.take(index as int),
                Ok::<(nat, nat), ErrorView>((appended as nat, retired as nat)),
            ),
        decreases runs@.len() - index,
    {
        let ghost middle = *log;
        let ghost front = Ok::<(nat, nat), ErrorView>((appended as nat, retired as nat));
        let outcome = apply_run(log, observers, &runs[index], appended, retired);
        let ghost count = refresh::count_told(outcome);
        proof {
            assert(runs@.take(index + 1).drop_last() =~= runs@.take(index as int));
            assert(run_applied(
                middle,
                *log,
                observers@,
                runs@.take(index + 1).last(),
                front,
                count,
            ));
            assert(applied(start, *log, observers@, runs@.take(index + 1), count));
        }
        match outcome {
            Err(error) => {
                proof {
                    failures_end_it(start, *log, observers@, runs@, index + 1, count);
                }
                return Err(error);
            },
            Ok((news, gone)) => {
                appended = news;
                retired = gone;
            },
        }
        index += 1;
    }
    assert(runs@.take(index as int) =~= runs@);
    Ok((appended, retired))
}

// ---- what holds of listings ----

/// Where the plan has the change for a key that a listing leaves out.
proof fn left_out_is_planned(
    s: StateView,
    kind: Seq<char>,
    levels: Seq<LevelToldView>,
    key: ObservationKeyView,
) -> (at: int)
    requires
        laws::keyed(s),
        s.observations.contains_key(key),
        key.observer == kind,
        !is_told(kind, levels, key),
    ensures
        0 <= at < list_plan(s, kind, levels).len(),
        list_plan(s, kind, levels)[at] == (ObservationChangeView { key, level: silence(s, key) }),
{
    broadcast use vstd::seq_lib::group_filter_ensures;

    catalog::listing_exists::<ObservationKey>(s.observations.dom());
    let keys = catalog::listing::<ObservationKey>(s.observations.dom());
    let all = selection::values::<ObservationKey, ObservationView>(s.observations);
    assert(keys.to_set().contains(key));
    let i = choose|i: int| 0 <= i < keys.len() && keys[i] == key;
    let observation = s.observations[key];
    assert(all[i] == observation);
    assert(left_out(kind, levels)(all[i]));
    let quiet = all.filter(left_out(kind, levels));
    assert(quiet.contains(all[i]));
    let j = choose|j: int| 0 <= j < quiet.len() && quiet[j] == observation;
    assert(quiet.map_values(silent_change(s))[j] == silent_change(s)(observation));
    levels.len() + j
}

/// A dead worker is a statement and no silence: when a listing leaves out something
/// that was known to be alive or absent, it is absent as long as its attempt runs, and
/// its key is retired once the attempt has ended.
pub proof fn silent_workers_are_absent_until_their_attempt_ends(
    s: StateView,
    kind: Seq<char>,
    levels: Seq<LevelToldView>,
    attempt_id: Seq<char>,
)
    requires
        laws::keyed(s),
        ({
            let key = ObservationKeyView {
                observer: kind,
                subject: attempt_id,
                field: "liveness"@,
            };
            s.observations.contains_key(key) && !is_told(kind, levels, key)
        }),
    ensures
        list_plan(s, kind, levels).contains(
            ObservationChangeView {
                key: ObservationKeyView {
                    observer: kind,
                    subject: attempt_id,
                    field: "liveness"@,
                },
                level: if runs_still(s, attempt_id) {
                    Some("absent"@)
                } else {
                    None
                },
            },
        ),
{
    let key = ObservationKeyView { observer: kind, subject: attempt_id, field: "liveness"@ };
    let at = left_out_is_planned(s, kind, levels, key);
    assert(list_plan(s, kind, levels)[at].key == key);
}

/// A change of the plan is one that the listing tells, or one for a key that it leaves
/// out.
proof fn planned_changes(
    s: StateView,
    kind: Seq<char>,
    levels: Seq<LevelToldView>,
    i: int,
)
    requires
        laws::keyed(s),
        0 <= i < list_plan(s, kind, levels).len(),
    ensures
        ({
            let change = list_plan(s, kind, levels)[i];
            &&& change.key.observer == kind
            &&& i < levels.len() ==> change == told_change(kind)(levels[i]) && is_told(
                kind,
                levels,
                change.key,
            )
            &&& i >= levels.len() ==> change.level == silence(s, change.key) && !is_told(
                kind,
                levels,
                change.key,
            ) && s.observations.contains_key(change.key)
        }),
{
    broadcast use vstd::seq_lib::group_filter_ensures;

    let change = list_plan(s, kind, levels)[i];
    if i < levels.len() {
        assert(change == told_change(kind)(levels[i]));
        assert(key_told(kind, levels[i]) == change.key);
    } else {
        let all = selection::values::<ObservationKey, ObservationView>(s.observations);
        let quiet = all.filter(left_out(kind, levels));
        let observation = quiet[i - levels.len()];
        assert(change == silent_change(s)(observation));
        assert(left_out(kind, levels)(quiet[i - levels.len()]));
        filtered_are_among(all, left_out(kind, levels), i - levels.len());
        let j = choose|j: int| 0 <= j < all.len() && all[j] == observation;
        catalog::listing_exists::<ObservationKey>(s.observations.dom());
        let keys = catalog::listing::<ObservationKey>(s.observations.dom());
        assert(keys.to_set().contains(keys[j]));
    }
}

proof fn filtered_are_among<T>(items: Seq<T>, test: spec_fn(T) -> bool, i: int)
    requires
        0 <= i < items.filter(test).len(),
    ensures
        items.contains(items.filter(test)[i]),
    decreases items.len(),
{
    reveal(Seq::filter);
    let front = items.drop_last();
    if i < front.filter(test).len() {
        filtered_are_among(front, test, i);
        let found = front.filter(test)[i];
        let j = choose|j: int| 0 <= j < front.len() && front[j] == found;
        assert(items[j] == found);
        assert(items.filter(test)[i] == found);
    } else {
        assert(items.filter(test)[i] == items[items.len() - 1]);
    }
}

/// A run of an observer changes nothing that another observer has reported.
pub proof fn listings_change_only_their_own_keys(
    s: StateView,
    kind: Seq<char>,
    levels: Seq<LevelToldView>,
)
    requires
        laws::keyed(s),
    ensures
        forall|i: int|
            0 <= i < list_plan(s, kind, levels).len() ==> (#[trigger] list_plan(
                s,
                kind,
                levels,
            )[i]).key.observer == kind,
{
    assert forall|i: int| 0 <= i < list_plan(s, kind, levels).len() implies (
    #[trigger] list_plan(s, kind, levels)[i]).key.observer == kind by {
        planned_changes(s, kind, levels, i);
    }
}

/// The current level of each key.
pub open spec fn current(s: StateView) -> Map<ObservationKeyView, Seq<char>> {
    s.observations.map_values(|o: ObservationView| o.level)
}

/// The levels after changes.
pub open spec fn pictured(
    levels: Map<ObservationKeyView, Seq<char>>,
    changes: Seq<ObservationChangeView>,
) -> Map<ObservationKeyView, Seq<char>>
    decreases changes.len(),
{
    if changes.len() == 0 {
        levels
    } else {
        let before = pictured(levels, changes.drop_last());
        match changes.last().level {
            Some(level) => before.insert(changes.last().key, level),
            None => before.remove(changes.last().key),
        }
    }
}

/// Whether a change says what is so already.
pub open spec fn is_no_news(
    levels: Map<ObservationKeyView, Seq<char>>,
    change: ObservationChangeView,
) -> bool {
    level_at(levels, change.key) == change.level
}

pub open spec fn level_at(
    levels: Map<ObservationKeyView, Seq<char>>,
    key: ObservationKeyView,
) -> Option<Seq<char>> {
    if levels.contains_key(key) {
        Some(levels[key])
    } else {
        None
    }
}

proof fn untouched_levels_stay(
    levels: Map<ObservationKeyView, Seq<char>>,
    changes: Seq<ObservationChangeView>,
    key: ObservationKeyView,
)
    requires
        forall|i: int| 0 <= i < changes.len() ==> (#[trigger] changes[i]).key != key,
    ensures
        level_at(pictured(levels, changes), key) == level_at(levels, key),
    decreases changes.len(),
{
    if changes.len() > 0 {
        untouched_levels_stay(levels, changes.drop_last(), key);
        assert(changes[changes.len() - 1].key != key);
    }
}

proof fn agreed_levels_come_about(
    levels: Map<ObservationKeyView, Seq<char>>,
    changes: Seq<ObservationChangeView>,
    change: ObservationChangeView,
    at: int,
)
    requires
        0 <= at < changes.len(),
        changes[at] == change,
        forall|i: int|
            0 <= i < changes.len() && (#[trigger] changes[i]).key == change.key
                ==> changes[i].level == change.level,
    ensures
        level_at(pictured(levels, changes), change.key) == change.level,
    decreases changes.len(),
{
    let last = changes[changes.len() - 1];
    if last.key != change.key {
        assert(changes.drop_last()[at] == change);
        agreed_levels_come_about(levels, changes.drop_last(), change, at);
    }
}

/// A listing that is given again is no news: once its changes are made, planning it
/// again changes nothing, as long as the attempts are as they were and the listing does
/// not contradict itself.
pub proof fn listings_given_again_are_no_news(
    s: StateView,
    t: StateView,
    kind: Seq<char>,
    levels: Seq<LevelToldView>,
)
    requires
        laws::keyed(s),
        laws::keyed(t),
        t.attempts == s.attempts,
        current(t) == pictured(current(s), list_plan(s, kind, levels)),
        forall|i: int, j: int|
            0 <= i < levels.len() && 0 <= j < levels.len() && key_told(kind, #[trigger] levels[i])
                == key_told(kind, #[trigger] levels[j]) ==> levels[i].level == levels[j].level,
    ensures
        forall|i: int|
            0 <= i < list_plan(t, kind, levels).len() ==> is_no_news(
                current(t),
                #[trigger] list_plan(t, kind, levels)[i],
            ),
{
    let first = list_plan(s, kind, levels);
    let again = list_plan(t, kind, levels);
    assert forall|i: int| 0 <= i < again.len() implies is_no_news(
        current(t),
        #[trigger] again[i],
    ) by {
        let change = again[i];
        planned_changes(t, kind, levels, i);
        if i < levels.len() {
            assert(first[i] == told_change(kind)(levels[i]));
            assert forall|j: int| 0 <= j < first.len() && (#[trigger] first[j]).key
                == change.key implies first[j].level == change.level by {
                planned_changes(s, kind, levels, j);
                if j < levels.len() {
                    assert(key_told(kind, levels[j]) == key_told(kind, levels[i]));
                }
            }
            agreed_levels_come_about(current(s), first, change, i);
        } else {
            let key = change.key;
            assert(current(t).contains_key(key));
            assert(silence(s, key) == silence(t, key));
            if s.observations.contains_key(key) {
                let at = left_out_is_planned(s, kind, levels, key);
                assert forall|j: int| 0 <= j < first.len() && (#[trigger] first[j]).key
                    == key implies first[j].level == change.level by {
                    planned_changes(s, kind, levels, j);
                }
                agreed_levels_come_about(current(s), first, change, at);
            } else {
                assert forall|j: int| 0 <= j < first.len() implies (#[trigger] first[j]).key
                    != key by {
                    planned_changes(s, kind, levels, j);
                }
                untouched_levels_stay(current(s), first, key);
                assert(!current(s).contains_key(key));
            }
        }
    }
}

} // verus!

//! Observer runs: the levels that they change, and what a comparison with the
//! attempts has found.

use vstd::prelude::*;

use crate::catalog::Replica;
use crate::documents;
use crate::documents::{FindingView, Output, OutputView, ReconcileFinding};
use crate::error::{ErrorView, Result};
use crate::json;
use crate::json::{Json, JsonView};
use crate::log;
use crate::log::{AppendHook, ObservationAppend, ObservationAppendView, ProjectLog};
use crate::observation::{ObservationKey, ObservationKeyView};
use crate::selection::{lines_of, Tell};
use crate::status;
use crate::store;
use crate::store::{Head, HeadView, Store};
use crate::text;
use crate::text::{decimal_text, join_texts, joined, joined3, joined5, same_text};
use crate::views;
use crate::views::replicas;
use crate::wire;
use crate::wire::list_to_json;

verus! {

/// A level to report, or a key to retire.
#[derive(Debug)]
pub struct ObservationChange {
    pub key: ObservationKey,
    pub level: Option<String>,
}

#[verifier::ext_equal]
pub struct ObservationChangeView {
    pub key: ObservationKeyView,
    pub level: Option<Seq<char>>,
}

impl View for ObservationChange {
    type V = ObservationChangeView;

    open spec fn view(&self) -> ObservationChangeView {
        ObservationChangeView { key: self.key@, level: views::opt_view(self.level) }
    }
}

/// How many changes were news, and how many of these were retirements.
pub type Count = core::result::Result<(nat, nat), ErrorView>;

/// One more change in the count.
pub open spec fn counted(
    so_far: (nat, nat),
    change: ObservationChangeView,
    answer: log::Observed,
) -> Count {
    match answer {
        Err(error) => Err(error),
        Ok(ObservationAppendView::Unchanged { .. }) => Ok(so_far),
        Ok(ObservationAppendView::Appended(_)) => Ok(
            (
                so_far.0 + 1,
                so_far.1 + if change.level is None {
                    1nat
                } else {
                    0nat
                },
            ),
        ),
    }
}

/// One more change is recorded, unless one before it has failed.
pub open spec fn goes_on<S: Store, H: AppendHook>(
    middle: ProjectLog<S, H>,
    after: ProjectLog<S, H>,
    change: ObservationChangeView,
    front: Count,
    count: Count,
) -> bool {
    match front {
        Err(error) => after == middle && count == front,
        Ok(so_far) => exists|answer: log::Observed| #[trigger]
            middle.observes(after, change.key, change.level, answer) && count == counted(
                so_far,
                change,
                answer,
            ),
    }
}

/// The changes are recorded one after the other, up to the first that fails.
pub open spec fn recorded<S: Store, H: AppendHook>(
    log: ProjectLog<S, H>,
    after: ProjectLog<S, H>,
    changes: Seq<ObservationChangeView>,
    count: Count,
) -> bool
    decreases changes.len(),
{
    if changes.len() == 0 {
        after == log && count == Ok::<(nat, nat), ErrorView>((0, 0))
    } else {
        exists|middle: ProjectLog<S, H>, front: Count| #[trigger]
            goes_on(middle, after, changes.last(), front, count) && recorded(
                log,
                middle,
                changes.drop_last(),
                front,
            )
    }
}

proof fn failures_stay<S: Store, H: AppendHook>(
    log: ProjectLog<S, H>,
    after: ProjectLog<S, H>,
    changes: Seq<ObservationChangeView>,
    n: int,
    count: Count,
)
    requires
        0 <= n <= changes.len(),
        count is Err,
        recorded(log, after, changes.take(n), count),
    ensures
        recorded(log, after, changes, count),
    decreases changes.len() - n,
{
    if n == changes.len() {
        assert(changes.take(n) =~= changes);
    } else {
        assert(changes.take(n + 1).drop_last() =~= changes.take(n));
        assert(goes_on(after, after, changes.take(n + 1).last(), count, count));
        failures_stay(log, after, changes, n + 1, count);
    }
}

/// What recording the changes came to.
pub open spec fn count_told(outcome: Result<(usize, usize)>) -> Count {
    match outcome {
        Err(error) => Err(error@),
        Ok((appended, retired)) => Ok((appended as nat, retired as nat)),
    }
}

/// Records changes in turn. A level that is there already, and a key that is gone
/// already, append nothing.
pub fn record_changes<S: Store, H: AppendHook>(
    log: &mut ProjectLog<S, H>,
    changes: &Vec<ObservationChange>,
) -> (outcome: Result<(usize, usize)>)
    ensures
        recorded(*old(log), *final(log), views::views(changes@), count_told(outcome)),
{
    let ghost start = *log;
    let ghost all = views::views(changes@);
    let mut appended: usize = 0;
    let mut retired: usize = 0;
    let mut index: usize = 0;
    assert(all.take(0) =~= Seq::<ObservationChangeView>::empty());
    while index < changes.len()
        invariant
            retired <= appended <= index <= changes@.len(),
            start == *old(log),
            all == views::views(changes@),
            recorded(
                start,
                *log,
                all.take(index as int),
                Ok::<(nat, nat), ErrorView>((appended as nat, retired as nat)),
            ),
        decreases changes@.len() - index,
    {
        let ghost middle = *log;
        let change = &changes[index];
        proof {
            assert(all.take(index + 1).drop_last() =~= all.take(index as int));
            assert(all.take(index + 1).last() == change@);
        }
        let answer = match &change.level {
            Some(level) => log.report_observation(change.key.replica(), level.clone()),
            None => log.retire_observation(change.key.replica()),
        };
        let ghost told = store::told(answer);
        let ghost so_far = (appended as nat, retired as nat);
        proof {
            assert(middle.observes(*log, change@.key, change@.level, told));
            assert(goes_on(
                middle,
                *log,
                all.take(index + 1).last(),
                Ok::<(nat, nat), ErrorView>(so_far),
                counted(so_far, change@, told),
            ));
        }
        match answer {
            Err(error) => {
                proof {
                    failures_stay(start, *log, all, index + 1, Err(error@));
                }
                return Err(error);
            },
            Ok(ObservationAppend::Appended(_)) => {
                appended += 1;
                if change.level.is_none() {
                    retired += 1;
                }
            },
            Ok(ObservationAppend::Unchanged { .. }) => {},
        }
        index += 1;
    }
    assert(all.take(index as int) =~= all);
    Ok((appended, retired))
}

// ---- runs ----

/// A level that an observer has told.
#[derive(Debug)]
pub struct LevelTold {
    pub subject: String,
    pub field: String,
    pub level: String,
}

#[verifier::ext_equal]
pub struct LevelToldView {
    pub subject: Seq<char>,
    pub field: Seq<char>,
    pub level: Seq<char>,
}

impl View for LevelTold {
    type V = LevelToldView;

    open spec fn view(&self) -> LevelToldView {
        LevelToldView { subject: self.subject@, field: self.field@, level: self.level@ }
    }
}

impl Replica for LevelTold {
    fn replica(&self) -> (copy: LevelTold) {
        LevelTold {
            subject: self.subject.clone(),
            field: self.field.clone(),
            level: self.level.clone(),
        }
    }
}

/// A run of an observer: whether it succeeded, what it told, and the document
/// about it.
#[derive(Debug)]
pub struct ObserverRun {
    pub kind: String,
    pub success: bool,
    pub normalized: Vec<LevelTold>,
    pub document: Json,
}

/// A refresh: its runs, the changes that were news, and the head behind them.
#[derive(Debug)]
pub struct RefreshApplication {
    pub runs: Vec<ObserverRun>,
    pub appended: usize,
    pub retired: usize,
    pub head: Head,
}

/// Which answer a level is about whether something is alive.
pub open spec fn answer_of(level: Seq<char>) -> int {
    if level == "present"@ {
        0
    } else if level == "absent"@ {
        1
    } else {
        2
    }
}

/// How many of the levels about being alive give the answer.
pub open spec fn tally(levels: Seq<LevelToldView>, answer: int) -> nat
    decreases levels.len(),
{
    if levels.len() == 0 {
        0
    } else {
        tally(levels.drop_last(), answer) + if levels.last().field == "liveness"@ && answer_of(
            levels.last().level,
        ) == answer {
            1nat
        } else {
            0nat
        }
    }
}

/// The levels of all runs, one run after the other.
pub open spec fn all_levels(runs: Seq<ObserverRun>) -> Seq<LevelToldView>
    decreases runs.len(),
{
    if runs.len() == 0 {
        Seq::empty()
    } else {
        all_levels(runs.drop_last()) + views::views(runs.last().normalized@)
    }
}

fn levels_of(runs: &Vec<ObserverRun>) -> (levels: Vec<LevelTold>)
    ensures
        views::views(levels@) == all_levels(runs@),
{
    let mut levels: Vec<LevelTold> = Vec::new();
    let mut index: usize = 0;
    assert(runs@.take(0) =~= Seq::<ObserverRun>::empty());
    assert(views::views(levels@) =~= Seq::<LevelToldView>::empty());
    while index < runs.len()
        invariant
            index <= runs@.len(),
            views::views(levels@) == all_levels(runs@.take(index as int)),
        decreases runs@.len() - index,
    {
        assert(runs@.take(index + 1).drop_last() =~= runs@.take(index as int));
        let ghost before = views::views(levels@);
        let mut more = replicas(&runs[index].normalized);
        let ghost added = views::views(more@);
        levels.append(&mut more);
        assert(views::views(levels@) =~= before + added);
        index += 1;
    }
    assert(runs@.take(index as int) =~= runs@);
    levels
}

fn tally_of(levels: &Vec<LevelTold>) -> (sums: (u64, u64, u64))
    ensures
        sums.0 == tally(views::views(levels@), 0),
        sums.1 == tally(views::views(levels@), 1),
        sums.2 == tally(views::views(levels@), 2),
{
    let ghost all = views::views(levels@);
    let mut present: usize = 0;
    let mut absent: usize = 0;
    let mut unknown: usize = 0;
    let mut index: usize = 0;
    assert(all.take(0) =~= Seq::<LevelToldView>::empty());
    while index < levels.len()
        invariant
            index <= levels@.len(),
            all == views::views(levels@),
            present == tally(all.take(index as int), 0),
            absent == tally(all.take(index as int), 1),
            unknown == tally(all.take(index as int), 2),
            present <= index,
            absent <= index,
            unknown <= index,
        decreases levels@.len() - index,
    {
        assert(all.take(index + 1).drop_last() =~= all.take(index as int));
        assert(all.take(index + 1).last() == levels@[index as int]@);
        if same_text(levels[index].field.as_str(), "liveness") {
            if same_text(levels[index].level.as_str(), "present") {
                present += 1;
            } else if same_text(levels[index].level.as_str(), "absent") {
                absent += 1;
            } else {
                unknown += 1;
            }
        }
        index += 1;
    }
    assert(all.take(index as int) =~= all);
    (present as u64, absent as u64, unknown as u64)
}

/// The runs and what they came to.
pub open spec fn refresh_json(result: RefreshApplication) -> JsonView {
    json::empty_object().with("absent"@, JsonView::Int(tally(all_levels(result.runs@), 1) as int)).with(
        "appended"@,
        JsonView::Int(result.appended as int),
    ).with("changed"@, JsonView::Bool(result.appended > 0)).with(
        "present"@,
        JsonView::Int(tally(all_levels(result.runs@), 0) as int),
    ).with("retired"@, JsonView::Int(result.retired as int)).with(
        "runs"@,
        JsonView::List(Seq::new(result.runs@.len(), |i: int| result.runs@[i].document@)),
    ).with("unbound"@, JsonView::List(Seq::empty())).with(
        "unknown"@,
        JsonView::Int(tally(all_levels(result.runs@), 2) as int),
    )
}

pub fn refresh_result_value(result: &RefreshApplication) -> (document: Json)
    ensures
        document@ == refresh_json(*result),
{
    let runs = &result.runs;
    let (present, absent, unknown) = tally_of(&levels_of(runs));
    let mut documents: Vec<Json> = Vec::new();
    let mut index: usize = 0;
    while index < runs.len()
        invariant
            index <= runs@.len(),
            documents@.len() == index,
            forall|i: int|
                0 <= i < index ==> (#[trigger] documents@[i])@ == runs@[i].document@,
        decreases runs@.len() - index,
    {
        documents.push(runs[index].document.clone());
        index += 1;
    }
    let listed = Json::List(documents);
    assert(listed@->List_0 =~= Seq::new(
        result.runs@.len(),
        |i: int| result.runs@[i].document@,
    )) by {
        assert forall|i: int| 0 <= i < documents@.len() implies listed@->List_0[i]
            == result.runs@[i].document@ by {
            assert(documents@[i]@ == runs@[i].document@);
        }
    }
    let none = Json::List(Vec::new());
    assert(none@->List_0 =~= Seq::<JsonView>::empty());
    Json::object().with("absent", Json::number(absent)).with(
        "appended",
        Json::number(result.appended as u64),
    ).with("changed", Json::Bool(result.appended > 0)).with("present", Json::number(present)).with(
        "retired",
        Json::number(result.retired as u64),
    ).with("runs", listed).with("unbound", none).with("unknown", Json::number(unknown))
}

pub open spec fn refresh_answer(head: HeadView, changed: bool, result: JsonView) -> JsonView {
    json::empty_object().with("changed"@, JsonView::Bool(changed)).with(
        "head"@,
        JsonView::Int(head.seq as int),
    ).with("result"@, result).with("revision"@, json::text_or_null(head.revision)).with(
        "schema"@,
        JsonView::Text("alder.refresh.v0"@),
    )
}

/// The answer to a refresh, whatever it came to.
pub fn refresh_document(head: &Head, changed: bool, result: &Json) -> (document: Json)
    ensures
        document@ == refresh_answer(head@, changed, result@),
{
    Json::object().with("changed", Json::Bool(changed)).with(
        "head",
        Json::number(head.sequence()),
    ).with("result", result.clone()).with("revision", Json::optional_text(&head.revision)).with(
        "schema",
        Json::text("alder.refresh.v0"),
    )
}

pub open spec fn refresh_output(result: RefreshApplication) -> OutputView {
    documents::shown(
        refresh_answer(result.head@, result.appended > 0, refresh_json(result)),
        if result.appended > 0 {
            "recorded "@ + text::decimal(result.appended as nat) + " observation changes ("@
                + text::decimal(result.retired as nat) + " retired)"@
        } else {
            "no observation changes"@
        },
    )
}

pub fn refresh(result: &RefreshApplication) -> (output: Output)
    ensures
        output@ == refresh_output(*result),
{
    let changed = result.appended > 0;
    let human = if changed {
        joined5(
            "recorded ",
            decimal_text(result.appended as u64).as_str(),
            " observation changes (",
            decimal_text(result.retired as u64).as_str(),
            " retired)",
        )
    } else {
        "no observation changes".to_owned()
    };
    let value = refresh_result_value(result);
    Output::new(refresh_document(&result.head, changed, &value), human)
}

// ---- findings ----

pub struct FindingText;

/// A finding, and the command that is suggested for it on a line of its own.
pub open spec fn finding_text() -> spec_fn(FindingView) -> Seq<char> {
    |f: FindingView|
        {
            let line = status::finding_subject(f) + "  "@ + f.detail;
            match f.suggested_command {
                Some(command) => line + "\n  suggested: "@ + command,
                None => line,
            }
        }
}

impl Tell<ReconcileFinding> for FindingText {
    open spec fn line(&self) -> spec_fn(FindingView) -> Seq<char> {
        finding_text()
    }

    fn tell(&self, item: &ReconcileFinding) -> (line: String) {
        let subject = match &item.attempt_id {
            Some(id) => id.clone(),
            None => status::text_or(&item.handle, "-"),
        };
        let line = joined3(subject.as_str(), "  ", item.detail.as_str());
        match &item.suggested_command {
            Some(command) => line.concat("\n  suggested: ").concat(command.as_str()),
            None => line,
        }
    }
}

/// What was found of the attempts, from a fresh refresh or from the folded levels.
pub open spec fn reconcile_output(
    head: HeadView,
    refreshed: Option<&RefreshApplication>,
    findings: Seq<FindingView>,
) -> OutputView {
    let found = if findings.len() == 0 {
        "no reconciliation findings"@
    } else {
        text::together(findings.map_values(finding_text()), "\n\n"@)
    };
    documents::shown(
        json::empty_object().with("findings"@, wire::list_json::<ReconcileFinding>(findings)).with(
            "head"@,
            JsonView::Int(head.seq as int),
        ).with("observation_runs"@, JsonView::List(Seq::empty())).with(
            "refresh_result"@,
            match refreshed {
                Some(result) => refresh_json(*result),
                None => JsonView::Null,
            },
        ).with("refreshed"@, JsonView::Bool(refreshed is Some)).with(
            "schema"@,
            JsonView::Text("alder.reconcile.v0"@),
        ),
        if refreshed is Some {
            found
        } else {
            "folded observation snapshot\n\n"@ + found
        },
    )
}

pub fn reconcile(
    head: &Head,
    refreshed: Option<&RefreshApplication>,
    findings: &Vec<ReconcileFinding>,
) -> (output: Output)
    ensures
        output@ == reconcile_output(head@, refreshed, views::views(findings@)),
{
    assert(views::views(findings@).len() == findings@.len());
    let found = if findings.len() == 0 {
        "no reconciliation findings".to_owned()
    } else {
        join_texts(&lines_of(findings, &FindingText), "\n\n")
    };
    let result = match refreshed {
        Some(result) => refresh_result_value(result),
        None => Json::Null,
    };
    let none = Json::List(Vec::new());
    assert(none@->List_0 =~= Seq::<JsonView>::empty());
    let human = if refreshed.is_some() {
        found
    } else {
        joined("folded observation snapshot\n\n", found.as_str())
    };
    Output::new(
        Json::object().with("findings", list_to_json(findings)).with(
            "head",
            Json::number(head.sequence()),
        ).with("observation_runs", none).with("refresh_result", result).with(
            "refreshed",
            Json::Bool(refreshed.is_some()),
        ).with("schema", Json::text("alder.reconcile.v0")),
        human,
    )
}

/// The observers whose runs succeeded.
pub open spec fn known_kinds(runs: Seq<ObserverRun>) -> Seq<Seq<char>>
    decreases runs.len(),
{
    if runs.len() == 0 {
        Seq::empty()
    } else if runs.last().success {
        known_kinds(runs.drop_last()).push(runs.last().kind@)
    } else {
        known_kinds(runs.drop_last())
    }
}

/// The observers that a finding may be drawn from which rests on a fresh run.
pub fn successful_kinds(runs: &Vec<ObserverRun>) -> (kinds: Vec<String>)
    ensures
        views::views(kinds@) == known_kinds(runs@),
{
    let mut kinds: Vec<String> = Vec::new();
    let mut index: usize = 0;
    assert(runs@.take(0) =~= Seq::<ObserverRun>::empty());
    assert(views::views(kinds@) =~= Seq::<Seq<char>>::empty());
    while index < runs.len()
        invariant
            index <= runs@.len(),
            views::views(kinds@) == known_kinds(runs@.take(index as int)),
        decreases runs@.len() - index,
    {
        assert(runs@.take(index + 1).drop_last() =~= runs@.take(index as int));
        if runs[index].success {
            let ghost before = kinds@;
            kinds.push(runs[index].kind.clone());
            assert(views::views(kinds@) =~= views::views(before).push(runs@[index as int].kind@));
        }
        index += 1;
    }
    assert(runs@.take(index as int) =~= runs@);
    kinds
}

} // verus!

//! Diagnostics: the log itself, the projection, and the observers.

use vstd::prelude::*;

use crate::catalog;
use crate::catalog::Catalog;
use crate::cli::{DebugLogCommand, DebugObservationsArgs};
use crate::config::{ObserverConfig, ObserverView};
use crate::documents;
use crate::documents::{event_summaries, recent_events, Output, OutputView};
use crate::error;
use crate::error::{AlderError, ErrorView, Result};
use crate::event::{Event, EventView};
use crate::json;
use crate::json::{Json, JsonView};
use crate::log::{Snapshot, SnapshotView};
use crate::observation::{Observation, ObservationKey, ObservationView};
use crate::observer::{MAX_EXECUTIONS, TIMEOUT_SECONDS};
use crate::project::{ProjectState, StateView};
use crate::rules;
use crate::selection;
use crate::selection::{chosen, lines_of, values_of, Tell, Test};
use crate::status;
use crate::store;
use crate::store::HeadView;
use crate::text;
use crate::text::{decimal_text, join_texts, joined, joined3, joined5, same_text};
use crate::views;
use crate::wire;
use crate::wire::{list_to_json, ToJson};

verus! {

// ---- the log ----

pub open spec fn head_line(head: HeadView) -> Seq<char> {
    "head "@ + text::decimal(head.seq as nat) + "  "@ + status::or_text(head.revision, "empty"@)
}

fn debug_log_head(snapshot: &Snapshot) -> (line: String)
    ensures
        line@ == head_line(snapshot@.head),
{
    joined3("head ", decimal_text(snapshot.head.sequence()).as_str(), "  ").concat(
        status::text_or(&snapshot.head.revision, "empty").as_str(),
    )
}

pub struct TailLine;

pub open spec fn tail_line() -> spec_fn(EventView) -> Seq<char> {
    |e: EventView|
        "#"@ + text::decimal(e.seq as nat) + "  "@ + e.payload.event_type() + "  "@ + e.id
}

impl Tell<Event> for TailLine {
    open spec fn line(&self) -> spec_fn(EventView) -> Seq<char> {
        tail_line()
    }

    fn tell(&self, item: &Event) -> (line: String) {
        joined5(
            "#",
            decimal_text(item.seq).as_str(),
            "  ",
            item.payload.event_type(),
            "  ",
        ).concat(item.id.as_str())
    }
}

/// The first event at that place.
pub open spec fn event_at(events: Seq<EventView>, seq: u64) -> Option<EventView>
    decreases events.len(),
{
    if events.len() == 0 {
        None
    } else {
        match event_at(events.drop_last(), seq) {
            Some(event) => Some(event),
            None => if events.last().seq == seq {
                Some(events.last())
            } else {
                None
            },
        }
    }
}

proof fn event_at_extends(events: Seq<EventView>, seq: u64, n: int)
    requires
        0 <= n <= events.len(),
        event_at(events.take(n), seq) is Some,
    ensures
        event_at(events, seq) == event_at(events.take(n), seq),
    decreases events.len() - n,
{
    if n == events.len() {
        assert(events.take(n) =~= events);
    } else {
        assert(events.take(n + 1).drop_last() =~= events.take(n));
        event_at_extends(events, seq, n + 1);
    }
}

fn find_at(events: &Vec<Event>, seq: u64) -> (found: Option<&Event>)
    ensures
        views::opt_view(found) == event_at(views::views(events@), seq),
{
    let ghost all = views::views(events@);
    let mut index: usize = 0;
    assert(all.take(0) =~= Seq::<EventView>::empty());
    while index < events.len()
        invariant
            index <= events@.len(),
            all == views::views(events@),
            event_at(all.take(index as int), seq) is None,
        decreases events@.len() - index,
    {
        assert(all.take(index + 1).drop_last() =~= all.take(index as int));
        assert(all.take(index + 1).last() == events@[index as int]@);
        if events[index].seq == seq {
            proof {
                event_at_extends(all, seq, index + 1);
            }
            return Some(&events[index]);
        }
        index += 1;
    }
    assert(all.take(index as int) =~= all);
    None
}

pub open spec fn log_base(operation: Seq<char>) -> JsonView {
    json::empty_object().with("operation"@, JsonView::Text(operation)).with(
        "schema"@,
        JsonView::Text("alder.debug.log.v0"@),
    )
}

pub open spec fn debug_log_output(
    snapshot: SnapshotView,
    command: DebugLogCommand,
) -> core::result::Result<OutputView, ErrorView> {
    match command {
        DebugLogCommand::Head => Ok(
            documents::shown(
                log_base("head"@).with("head"@, JsonView::Int(snapshot.head.seq as int)).with(
                    "revision"@,
                    json::text_or_null(snapshot.head.revision),
                ),
                head_line(snapshot.head),
            ),
        ),
        DebugLogCommand::Tail => Ok(
            documents::shown(
                log_base("tail"@).with(
                    "events"@,
                    documents::summaries(documents::recent(snapshot.events)),
                ),
                text::together(
                    seq![head_line(snapshot.head)] + documents::recent(snapshot.events).map_values(
                        tail_line(),
                    ),
                    "\n"@,
                ),
            ),
        ),
        DebugLogCommand::Show { seq } => match event_at(snapshot.events, seq) {
            None => Err(
                error::not_found_error("event sequence"@, text::decimal(seq as nat)),
            ),
            Some(event) => Ok(
                OutputView {
                    json: log_base("show"@).with("event"@, documents::event_json(event)),
                    pretty: Some(documents::event_json(event)),
                    human: Seq::empty(),
                },
            ),
        },
        DebugLogCommand::Verify => match rules::folded(snapshot.events) {
            Err(error) => Err(error),
            Ok(_) => Ok(
                documents::shown(
                    log_base("verify"@).with(
                        "events"@,
                        JsonView::Int(snapshot.events.len() as int),
                    ).with("head"@, JsonView::Int(snapshot.head.seq as int)).with(
                        "valid"@,
                        JsonView::Bool(true),
                    ),
                    "log valid · "@ + text::decimal(snapshot.events.len()) + " events · head "@
                        + text::decimal(snapshot.head.seq as nat),
                ),
            ),
        },
    }
}

fn log_document(operation: &str) -> (document: Json)
    ensures
        document@ == log_base(operation@),
{
    Json::object().with("operation", Json::text(operation)).with(
        "schema",
        Json::text("alder.debug.log.v0"),
    )
}

pub fn debug_log(snapshot: &Snapshot, command: &DebugLogCommand) -> (outcome: Result<Output>)
    ensures
        store::told(outcome) == debug_log_output(snapshot@, *command),
{
    match command {
        DebugLogCommand::Head => Ok(
            Output::new(
                log_document("head").with("head", Json::number(snapshot.head.sequence())).with(
                    "revision",
                    Json::optional_text(&snapshot.head.revision),
                ),
                debug_log_head(snapshot),
            ),
        ),
        DebugLogCommand::Tail => {
            let events = recent_events(&snapshot.events);
            let mut lines: Vec<String> = Vec::new();
            lines.push(debug_log_head(snapshot));
            assert(views::views(lines@) =~= seq![head_line(snapshot@.head)]);
            let ghost first = views::views(lines@);
            let mut more = lines_of(&events, &TailLine);
            let ghost second = views::views(more@);
            lines.append(&mut more);
            assert(views::views(lines@) =~= first + second);
            Ok(
                Output::new(
                    log_document("tail").with("events", event_summaries(&events)),
                    join_texts(&lines, "\n"),
                ),
            )
        },
        DebugLogCommand::Show { seq } => match find_at(&snapshot.events, *seq) {
            None => Err(
                AlderError::not_found("event sequence", decimal_text(*seq).as_str()),
            ),
            Some(event) => Ok(
                Output {
                    json: log_document("show").with("event", event.to_json()),
                    pretty: Some(event.to_json()),
                    human: String::new(),
                },
            ),
        },
        DebugLogCommand::Verify => {
            if let Err(error) = ProjectState::fold(snapshot.events.as_slice()) {
                return Err(error);
            }
            let count = snapshot.events.len() as u64;
            assert(snapshot@.events.len() == count);
            Ok(
                Output::new(
                    log_document("verify").with("events", Json::number(count)).with(
                        "head",
                        Json::number(snapshot.head.sequence()),
                    ).with("valid", Json::Bool(true)),
                    joined3("log valid · ", decimal_text(count).as_str(), " events · head ").concat(
                        decimal_text(snapshot.head.sequence()).as_str(),
                    ),
                ),
            )
        },
    }
}

// ---- the projection ----

pub open spec fn rebuild_output(head: HeadView, path: Seq<char>) -> OutputView {
    documents::shown(
        json::empty_object().with("head"@, JsonView::Int(head.seq as int)).with(
            "operation"@,
            JsonView::Text("rebuild"@),
        ).with("path"@, JsonView::Text(path)).with("schema"@, JsonView::Text("alder.debug.db.v0"@)),
        "rebuilt "@ + path + " at head "@ + text::decimal(head.seq as nat),
    )
}

/// The answer to a rebuild of the projection at `path`.
pub fn rebuilt(snapshot: &Snapshot, path: &str) -> (output: Output)
    ensures
        output@ == rebuild_output(snapshot@.head, path@),
{
    Output::new(
        Json::object().with("head", Json::number(snapshot.head.sequence())).with(
            "operation",
            Json::text("rebuild"),
        ).with("path", Json::text(path)).with("schema", Json::text("alder.debug.db.v0")),
        joined3("rebuilt ", path, " at head ").concat(
            decimal_text(snapshot.head.sequence()).as_str(),
        ),
    )
}

pub open spec fn verified_output(head: HeadView, result: JsonView) -> OutputView {
    documents::shown(
        json::empty_object().with("operation"@, JsonView::Text("verify"@)).with(
            "result"@,
            result,
        ).with("schema"@, JsonView::Text("alder.debug.db.v0"@)),
        "projection valid at head "@ + text::decimal(head.seq as nat),
    )
}

/// The answer to a verification of the projection that came to `result`.
pub fn verified(snapshot: &Snapshot, result: Json) -> (output: Output)
    ensures
        output@ == verified_output(snapshot@.head, result@),
{
    Output::new(
        Json::object().with("operation", Json::text("verify")).with("result", result).with(
            "schema",
            Json::text("alder.debug.db.v0"),
        ),
        joined("projection valid at head ", decimal_text(snapshot.head.sequence()).as_str()),
    )
}

pub open spec fn query_output(head: HeadView, result: JsonView) -> OutputView {
    OutputView {
        json: json::empty_object().with("head"@, JsonView::Int(head.seq as int)).with(
            "result"@,
            result,
        ).with("schema"@, JsonView::Text("alder.debug.query.v0"@)),
        pretty: Some(result),
        human: Seq::empty(),
    }
}

/// The answer to a query of the projection.
pub fn queried(snapshot: &Snapshot, result: Json) -> (output: Output)
    ensures
        output@ == query_output(snapshot@.head, result@),
{
    Output {
        json: Json::object().with("head", Json::number(snapshot.head.sequence())).with(
            "result",
            result.clone(),
        ).with("schema", Json::text("alder.debug.query.v0")),
        pretty: Some(result),
        human: String::new(),
    }
}

// ---- the observers ----

/// The first observer of that name.
pub open spec fn observer_named(observers: Seq<ObserverView>, name: Seq<char>) -> Option<
    ObserverView,
>
    decreases observers.len(),
{
    if observers.len() == 0 {
        None
    } else {
        match observer_named(observers.drop_last(), name) {
            Some(observer) => Some(observer),
            None => if observers.last().observer == name {
                Some(observers.last())
            } else {
                None
            },
        }
    }
}

proof fn observer_named_extends(observers: Seq<ObserverView>, name: Seq<char>, n: int)
    requires
        0 <= n <= observers.len(),
        observer_named(observers.take(n), name) is Some,
    ensures
        observer_named(observers, name) == observer_named(observers.take(n), name),
    decreases observers.len() - n,
{
    if n == observers.len() {
        assert(observers.take(n) =~= observers);
    } else {
        assert(observers.take(n + 1).drop_last() =~= observers.take(n));
        observer_named_extends(observers, name, n + 1);
    }
}

pub fn find_observer<'a>(observers: &'a Vec<ObserverConfig>, name: &str) -> (found: Option<
    &'a ObserverConfig,
>)
    ensures
        views::opt_view(found) == observer_named(views::views(observers@), name@),
{
    let ghost all = views::views(observers@);
    let mut index: usize = 0;
    assert(all.take(0) =~= Seq::<ObserverView>::empty());
    while index < observers.len()
        invariant
            index <= observers@.len(),
            all == views::views(observers@),
            observer_named(all.take(index as int), name@) is None,
        decreases observers@.len() - index,
    {
        assert(all.take(index + 1).drop_last() =~= all.take(index as int));
        assert(all.take(index + 1).last() == observers@[index as int]@);
        if same_text(observers[index].observer.as_str(), name) {
            proof {
                observer_named_extends(all, name@, index + 1);
            }
            return Some(&observers[index]);
        }
        index += 1;
    }
    assert(all.take(index as int) =~= all);
    None
}

/// The observer that a run is asked of, or why there is none.
pub open spec fn run_target(
    observers: Seq<ObserverView>,
    kind: Option<Seq<char>>,
) -> core::result::Result<
    ObserverView,
    ErrorView,
> {
    match kind {
        None => Err(error::validation_error("--run requires an observation kind"@)),
        Some(name) => match observer_named(observers, name) {
            Some(observer) => Ok(observer),
            None => Err(
                error::context_error(
                    "observer_unconfigured"@,
                    "observer `"@ + name + "` is not configured"@,
                    json::empty_object().with("kind"@, JsonView::Text(name)),
                ),
            ),
        },
    }
}

pub fn observer_to_run<'a>(
    observers: &'a Vec<ObserverConfig>,
    args: &DebugObservationsArgs,
) -> (outcome: Result<&'a ObserverConfig>)
    ensures
        match run_target(views::views(observers@), views::opt_view(args.kind)) {
            Ok(observer) => outcome matches Ok(o) && o@ == observer,
            Err(error) => outcome matches Err(e) && e@ == error,
        },
{
    let kind = match &args.kind {
        None => {
            return Err(AlderError::validation("--run requires an observation kind".to_owned()));
        },
        Some(kind) => kind,
    };
    match find_observer(observers, kind.as_str()) {
        Some(observer) => Ok(observer),
        None => Err(
            AlderError::with_context(
                "observer_unconfigured",
                joined3("observer `", kind.as_str(), "` is not configured"),
                Json::object().with("kind", Json::text(kind.as_str())),
            ),
        ),
    }
}

pub open spec fn diagnosis_output(
    kind: Seq<char>,
    observer: ObserverView,
    result: JsonView,
) -> OutputView {
    OutputView {
        json: json::empty_object().with("command"@, JsonView::Text(observer.command())).with(
            "configured"@,
            JsonView::Bool(true),
        ).with("kind"@, JsonView::Text(kind)).with(
            "max_executions"@,
            JsonView::Int(MAX_EXECUTIONS as int),
        ).with(
            "mode"@,
            JsonView::Text(observer.mode()),
        ).with("result"@, result).with(
            "schema"@,
            JsonView::Text("alder.debug.observations.v0"@),
        ).with("shell"@, JsonView::Text("/bin/bash -o pipefail -c"@)).with(
            "stored"@,
            JsonView::Bool(false),
        ).with("timeout_seconds"@, JsonView::Int(TIMEOUT_SECONDS as int)),
        pretty: Some(result),
        human: Seq::empty(),
    }
}

/// The answer to a run of one observer that stores nothing.
pub fn diagnosed(kind: &str, observer: &ObserverConfig, result: Json) -> (output: Output)
    ensures
        output@ == diagnosis_output(kind@, observer@, result@),
{
    Output {
        json: Json::object().with("command", Json::text(observer.command())).with(
            "configured",
            Json::Bool(true),
        ).with("kind", Json::text(kind)).with(
            "max_executions",
            Json::number(MAX_EXECUTIONS),
        ).with(
            "mode",
            Json::text(observer.mode()),
        ).with("result", result.clone()).with(
            "schema",
            Json::text("alder.debug.observations.v0"),
        ).with("shell", Json::text("/bin/bash -o pipefail -c")).with(
            "stored",
            Json::Bool(false),
        ).with("timeout_seconds", Json::number(TIMEOUT_SECONDS)),
        pretty: Some(result),
        human: String::new(),
    }
}

/// The names of the observers that are configured.
pub open spec fn configured(observers: Seq<ObserverView>) -> Seq<Seq<char>> {
    observers.map_values(|o: ObserverView| o.observer)
}

pub struct ObserverName;

impl Tell<ObserverConfig> for ObserverName {
    open spec fn line(&self) -> spec_fn(ObserverView) -> Seq<char> {
        |o: ObserverView| o.observer
    }

    fn tell(&self, item: &ObserverConfig) -> (line: String) {
        item.observer.clone()
    }
}

impl Tell<Observation> for ObserverName {
    open spec fn line(&self) -> spec_fn(ObservationView) -> Seq<char> {
        |o: ObservationView| o.key.observer
    }

    fn tell(&self, item: &Observation) -> (line: String) {
        item.key.observer.clone()
    }
}

/// The names of the observers that levels were reported by.
pub open spec fn referenced(observations: Seq<ObservationView>) -> Seq<Seq<char>> {
    observations.map_values(|o: ObservationView| o.key.observer)
}

pub struct ReportedBy<'a> {
    pub observer: &'a str,
}

pub open spec fn reported_by(name: Seq<char>) -> spec_fn(ObservationView) -> bool {
    |o: ObservationView| o.key.observer == name
}

impl<'a> Test<Observation> for ReportedBy<'a> {
    open spec fn test(&self) -> spec_fn(ObservationView) -> bool {
        reported_by(self.observer@)
    }

    fn passes(&self, item: &Observation) -> (passes: bool) {
        same_text(item.key.observer.as_str(), self.observer)
    }
}

/// All observers there are, each once, in order.
pub open spec fn kinds(
    observers: Seq<ObserverView>,
    observations: Seq<ObservationView>,
) -> Seq<Seq<char>> {
    catalog::listing::<String>((configured(observers) + referenced(observations)).to_set())
}

/// What there is to say of one observer: how it is configured, and its levels.
pub open spec fn kind_json(
    kind: Seq<char>,
    observer: Option<ObserverView>,
    objects: Seq<ObservationView>,
) -> JsonView {
    let none = observer is None;
    json::empty_object().with(
        "command"@,
        if none {
            JsonView::Null
        } else {
            JsonView::Text(observer->0.command())
        },
    ).with("configured"@, JsonView::Bool(!none)).with("kind"@, JsonView::Text(kind)).with(
        "latest_run"@,
        JsonView::Null,
    ).with(
        "max_executions"@,
        if none {
            JsonView::Null
        } else {
            JsonView::Int(MAX_EXECUTIONS as int)
        },
    ).with(
        "mode"@,
        if none {
            JsonView::Null
        } else {
            JsonView::Text(observer->0.mode())
        },
    ).with("objects"@, wire::list_json::<Observation>(objects)).with(
        "shell"@,
        if none {
            JsonView::Null
        } else {
            JsonView::Text("/bin/bash -o pipefail -c"@)
        },
    ).with(
        "timeout_seconds"@,
        if none {
            JsonView::Null
        } else {
            JsonView::Int(TIMEOUT_SECONDS as int)
        },
    )
}

fn kind_document(kind: &str, observer: Option<&ObserverConfig>, objects: &Vec<Observation>) -> (document:
    Json)
    ensures
        document@ == kind_json(kind@, views::opt_view(observer), views::views(objects@)),
{
    let (command, mode, shell, seconds, executions) = match observer {
        Some(found) => (
            Json::text(found.command()),
            Json::text(found.mode()),
            Json::text("/bin/bash -o pipefail -c"),
            Json::number(TIMEOUT_SECONDS),
            Json::number(MAX_EXECUTIONS),
        ),
        None => (Json::Null, Json::Null, Json::Null, Json::Null, Json::Null),
    };
    Json::object().with("command", command).with("configured", Json::Bool(observer.is_some())).with(
        "kind",
        Json::text(kind),
    ).with("latest_run", Json::Null).with("max_executions", executions).with("mode", mode).with(
        "objects",
        list_to_json(objects),
    ).with("shell", shell).with("timeout_seconds", seconds)
}

/// Whether an observer is the one asked for; where none is, every one is.
pub open spec fn wanted(asked: Option<Seq<char>>, kind: Seq<char>) -> bool {
    asked is None || asked->0 == kind
}

pub open spec fn details_among(
    observers: Seq<ObserverView>,
    observations: Seq<ObservationView>,
    asked: Option<Seq<char>>,
    kinds: Seq<Seq<char>>,
) -> Seq<JsonView>
    decreases kinds.len(),
{
    if kinds.len() == 0 {
        Seq::empty()
    } else {
        let front = details_among(observers, observations, asked, kinds.drop_last());
        let kind = kinds.last();
        if wanted(asked, kind) {
            front.push(
                kind_json(
                    kind,
                    observer_named(observers, kind),
                    observations.filter(reported_by(kind)),
                ),
            )
        } else {
            front
        }
    }
}

/// What there is to say of the observers, or of the one asked for; one that is
/// neither configured nor has levels is not found.
pub open spec fn observers_output(
    observers: Seq<ObserverView>,
    state: StateView,
    asked: Option<Seq<char>>,
) -> core::result::Result<OutputView, ErrorView> {
    let observations = selection::values::<ObservationKey, ObservationView>(state.observations);
    let details = details_among(observers, observations, asked, kinds(observers, observations));
    if asked is Some && details.len() == 0 {
        Err(error::not_found_error("observation kind"@, asked->0))
    } else {
        Ok(
            OutputView {
                json: json::empty_object().with("kinds"@, JsonView::List(details)).with(
                    "schema"@,
                    JsonView::Text("alder.debug.observations.v0"@),
                ),
                pretty: Some(JsonView::List(details)),
                human: Seq::empty(),
            },
        )
    }
}

fn name_set(names: &Vec<String>) -> (found: Catalog<String, bool>)
    ensures
        found@.dom() == views::views(names@).to_set(),
{
    let ghost all = views::views(names@);
    let mut found: Catalog<String, bool> = Catalog::new();
    let mut index: usize = 0;
    assert(found@.dom() =~= all.take(0).to_set());
    while index < names.len()
        invariant
            index <= names@.len(),
            all == views::views(names@),
            found@.dom() == all.take(index as int).to_set(),
        decreases names@.len() - index,
    {
        found.insert(names[index].clone(), true);
        proof {
            let longer = all.take(index + 1);
            let shorter = all.take(index as int);
            assert(longer =~= shorter.push(all[index as int]));
            assert forall|k: Seq<char>| longer.to_set().contains(k) <==> shorter.to_set().insert(
                all[index as int],
            ).contains(k) by {
                if longer.contains(k) {
                    let i = choose|i: int| 0 <= i < longer.len() && longer[i] == k;
                    if i < shorter.len() {
                        assert(shorter[i] == k);
                    }
                }
                if shorter.contains(k) {
                    let i = choose|i: int| 0 <= i < shorter.len() && shorter[i] == k;
                    assert(longer[i] == k);
                }
                assert(longer[index as int] == all[index as int]);
            }
            assert(longer.to_set() =~= shorter.to_set().insert(all[index as int]));
            assert(found@.dom() =~= longer.to_set());
        }
        index += 1;
    }
    assert(all.take(index as int) =~= all);
    found
}

/// The observers, configured or not, and their levels.
pub fn debug_observations(
    observers: &Vec<ObserverConfig>,
    state: &ProjectState,
    args: &DebugObservationsArgs,
) -> (outcome: Result<Output>)
    ensures
        store::told(outcome) == observers_output(
            views::views(observers@),
            state@,
            views::opt_view(args.kind),
        ),
{
    let ghost all_observers = views::views(observers@);
    let observations = values_of(&state.observations);
    let ghost all = views::views(observations@);
    let ghost asked = views::opt_view(args.kind);
    let mut names = lines_of(observers, &ObserverName);
    let ghost first = views::views(names@);
    let mut more = lines_of(&observations, &ObserverName);
    let ghost second = views::views(more@);
    names.append(&mut more);
    proof {
        assert(first =~= configured(all_observers));
        assert(second =~= referenced(all));
        assert(views::views(names@) =~= first + second);
    }
    let found = name_set(&names);
    let len = found.len();
    let ghost listed = kinds(all_observers, all);
    assert(found.keys() == listed);
    let mut details: Vec<Json> = Vec::new();
    let mut index: usize = 0;
    assert(Json::List(details)@->List_0 =~= details_among(
        all_observers,
        all,
        asked,
        listed.take(0),
    ));
    while index < len
        invariant
            index <= len,
            len == listed.len(),
            found.keys() == listed,
            all == views::views(observations@),
            all_observers == views::views(observers@),
            asked == views::opt_view(args.kind),
            Json::List(details)@->List_0 == details_among(
                all_observers,
                all,
                asked,
                listed.take(index as int),
            ),
        decreases len - index,
    {
        assert(listed.take(index + 1).drop_last() =~= listed.take(index as int));
        let kind = found.key_at(index);
        assert(listed.take(index + 1).last() == kind@);
        let is_wanted = match &args.kind {
            None => true,
            Some(name) => same_text(name.as_str(), kind.as_str()),
        };
        if is_wanted {
            let objects = chosen(&observations, &ReportedBy { observer: kind.as_str() });
            let ghost before = Json::List(details)@->List_0;
            details.push(
                kind_document(kind.as_str(), find_observer(observers, kind.as_str()), &objects),
            );
            assert(Json::List(details)@->List_0 =~= before.push(details@.last()@));
        }
        index += 1;
    }
    assert(listed.take(index as int) =~= listed);
    assert(Json::List(details)@->List_0.len() == details@.len());
    if let Some(name) = &args.kind {
        if details.len() == 0 {
            return Err(AlderError::not_found("observation kind", name.as_str()));
        }
    }
    let list = Json::List(details);
    Ok(
        Output {
            json: Json::object().with("kinds", list.clone()).with(
                "schema",
                Json::text("alder.debug.observations.v0"),
            ),
            pretty: Some(list),
            human: String::new(),
        },
    )
}

} // verus!

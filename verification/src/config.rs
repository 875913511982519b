//! The manifest of a project: its identity, its store and its observers.

use vstd::prelude::*;

use crate::catalog::Replica;
use crate::documents;
use crate::documents::{Output, OutputView};
use crate::error;
use crate::error::{AlderError, ErrorView, Result};
use crate::event::{Event, EventView};
use crate::fold;
use crate::json;
use crate::json::{Json, JsonView};
use crate::log;
use crate::project::ProjectState;
use crate::rules;
use crate::state::valid_name;
use crate::store;
use crate::store::{Head, HeadView};
use crate::text;
use crate::text::{has_text, is_blank, joined, joined3, joined5, same_text};
use crate::views;
use crate::views::{opt_replica, replicas};

verus! {

/// Where the shared log is kept.
#[derive(Debug, PartialEq, Eq)]
pub struct StoreConfig {
    pub remote: String,
    pub reference: String,
}

/// One observer, with one of two commands: `list` prints all current levels;
/// `probe` answers for one handle at a time.
#[derive(Debug, PartialEq, Eq)]
pub struct ObserverConfig {
    pub observer: String,
    pub list: Option<String>,
    pub probe: Option<String>,
}

#[derive(Debug, PartialEq, Eq)]
pub struct Config {
    pub schema: String,
    pub prefix: String,
    pub store: StoreConfig,
    pub observers: Vec<ObserverConfig>,
}

#[verifier::ext_equal]
pub struct ObserverView {
    pub observer: Seq<char>,
    pub list: Option<Seq<char>>,
    pub probe: Option<Seq<char>>,
}

#[verifier::ext_equal]
pub struct ConfigView {
    pub schema: Seq<char>,
    pub prefix: Seq<char>,
    pub remote: Seq<char>,
    pub reference: Seq<char>,
    pub observers: Seq<ObserverView>,
}

impl View for ObserverConfig {
    type V = ObserverView;

    open spec fn view(&self) -> ObserverView {
        ObserverView {
            observer: self.observer@,
            list: views::opt_view(self.list),
            probe: views::opt_view(self.probe),
        }
    }
}

impl View for Config {
    type V = ConfigView;

    open spec fn view(&self) -> ConfigView {
        ConfigView {
            schema: self.schema@,
            prefix: self.prefix@,
            remote: self.store.remote@,
            reference: self.store.reference@,
            observers: views::views(self.observers@),
        }
    }
}

impl Replica for ObserverConfig {
    fn replica(&self) -> (copy: ObserverConfig) {
        ObserverConfig {
            observer: self.observer.clone(),
            list: opt_replica(&self.list),
            probe: opt_replica(&self.probe),
        }
    }
}

impl Replica for Config {
    fn replica(&self) -> (copy: Config) {
        Config {
            schema: self.schema.clone(),
            prefix: self.prefix.clone(),
            store: StoreConfig {
                remote: self.store.remote.clone(),
                reference: self.store.reference.clone(),
            },
            observers: replicas(&self.observers),
        }
    }
}

impl ObserverView {
    pub open spec fn mode(self) -> Seq<char> {
        if self.probe is Some {
            "probe"@
        } else {
            "list"@
        }
    }

    /// The command that is run, a probe before a list.
    pub open spec fn command(self) -> Seq<char> {
        match self.probe {
            Some(command) => command,
            None => match self.list {
                Some(command) => command,
                None => Seq::empty(),
            },
        }
    }
}

impl ObserverConfig {
    pub fn mode(&self) -> (mode: &'static str)
        ensures
            mode@ == self@.mode(),
    {
        if self.probe.is_some() {
            "probe"
        } else {
            "list"
        }
    }

    pub fn command(&self) -> (command: &str)
        ensures
            command@ == self@.command(),
    {
        match &self.probe {
            Some(command) => command.as_str(),
            None => match &self.list {
                Some(command) => command.as_str(),
                None => {
                    proof {
                        reveal_strlit("");
                        assert(""@ =~= Seq::<char>::empty());
                    }
                    ""
                },
            },
        }
    }
}

// ---- what a manifest has to be ----

pub open spec fn name_error(field: Seq<char>, value: Seq<char>) -> ErrorView {
    error::validation_error(
        field + " `"@ + value
            + "` must contain lowercase ASCII letters, digits, or internal hyphens"@,
    )
}

pub fn validate_name(field: &str, value: &str) -> (outcome: Result<()>)
    ensures
        match outcome {
            Ok(_) => rules::is_name(value@),
            Err(e) => !rules::is_name(value@) && e@ == name_error(field@, value@),
        },
{
    if valid_name(value) {
        Ok(())
    } else {
        Err(
            AlderError::validation(
                joined3(field, " `", value).concat(
                    "` must contain lowercase ASCII letters, digits, or internal hyphens",
                ),
            ),
        )
    }
}

pub open spec fn store_error(remote: Seq<char>, reference: Seq<char>) -> Option<ErrorView> {
    if text::blank(remote) || text::blank(reference) {
        Some(error::validation_error("the store remote and ref cannot be empty"@))
    } else {
        None
    }
}

/// Exactly one of the two commands is there, and it says something.
pub open spec fn has_one_command(observer: ObserverView) -> bool {
    match (observer.list, observer.probe) {
        (Some(list), None) => !text::blank(list),
        (None, Some(probe)) => !text::blank(probe),
        _ => false,
    }
}

/// Whether one of the observers has this name.
pub open spec fn is_configured(observers: Seq<ObserverView>, name: Seq<char>) -> bool {
    exists|i: int| 0 <= i < observers.len() && (#[trigger] observers[i]).observer == name
}

/// The complaint about the first observer that is none or that was there before.
pub open spec fn observers_error(observers: Seq<ObserverView>) -> Option<ErrorView>
    decreases observers.len(),
{
    if observers.len() == 0 {
        None
    } else {
        match observers_error(observers.drop_last()) {
            Some(error) => Some(error),
            None => {
                let last = observers.last();
                if !rules::is_name(last.observer) {
                    Some(name_error("observer"@, last.observer))
                } else if !has_one_command(last) {
                    Some(
                        error::validation_error(
                            "observer `"@ + last.observer
                                + "` must have exactly one non-empty `list` or `probe` command"@,
                        ),
                    )
                } else if is_configured(observers.drop_last(), last.observer) {
                    Some(
                        error::validation_error(
                            "observer `"@ + last.observer + "` is configured more than once"@,
                        ),
                    )
                } else {
                    None
                }
            },
        }
    }
}

proof fn observers_error_extends(observers: Seq<ObserverView>, n: int)
    requires
        0 <= n <= observers.len(),
        observers_error(observers.take(n)) is Some,
    ensures
        observers_error(observers) == observers_error(observers.take(n)),
    decreases observers.len() - n,
{
    if n == observers.len() {
        assert(observers.take(n) =~= observers);
    } else {
        assert(observers.take(n + 1).drop_last() =~= observers.take(n));
        observers_error_extends(observers, n + 1);
    }
}

/// What is wrong with a manifest.
pub open spec fn config_error(config: ConfigView) -> Option<ErrorView> {
    if config.schema != "alder.config.v0"@ {
        Some(
            error::context_error(
                "config_invalid"@,
                "unsupported config schema `"@ + config.schema + "`"@,
                json::empty_object().with("schema"@, JsonView::Text(config.schema)),
            ),
        )
    } else if !rules::is_name(config.prefix) {
        Some(name_error("prefix"@, config.prefix))
    } else {
        match store_error(config.remote, config.reference) {
            Some(error) => Some(error),
            None => observers_error(config.observers),
        }
    }
}

fn check_store(remote: &str, reference: &str) -> (outcome: Result<()>)
    ensures
        match store_error(remote@, reference@) {
            Some(error) => outcome matches Err(e) && e@ == error,
            None => outcome is Ok,
        },
{
    if is_blank(remote) || is_blank(reference) {
        Err(AlderError::validation("the store remote and ref cannot be empty".to_owned()))
    } else {
        Ok(())
    }
}

fn has_command(observer: &ObserverConfig) -> (has: bool)
    ensures
        has == has_one_command(observer@),
{
    match (&observer.list, &observer.probe) {
        (Some(list), None) => !is_blank(list.as_str()),
        (None, Some(probe)) => !is_blank(probe.as_str()),
        _ => false,
    }
}

pub fn validate_config(config: &Config) -> (outcome: Result<()>)
    ensures
        match config_error(config@) {
            Some(error) => outcome matches Err(e) && e@ == error,
            None => outcome is Ok,
        },
{
    if !same_text(config.schema.as_str(), "alder.config.v0") {
        return Err(
            AlderError::with_context(
                "config_invalid",
                joined3("unsupported config schema `", config.schema.as_str(), "`"),
                Json::object().with("schema", Json::text(config.schema.as_str())),
            ),
        );
    }
    if let Err(error) = validate_name("prefix", config.prefix.as_str()) {
        return Err(error);
    }
    if let Err(error) = check_store(
        config.store.remote.as_str(),
        config.store.reference.as_str(),
    ) {
        return Err(error);
    }
    let ghost all = config@.observers;
    let mut names: Vec<String> = Vec::new();
    let mut index: usize = 0;
    assert(all.take(0) =~= Seq::<ObserverView>::empty());
    while index < config.observers.len()
        invariant
            index <= config.observers@.len(),
            all == config@.observers,
            config_error(config@) == observers_error(all),
            observers_error(all.take(index as int)) is None,
            names@.len() == index,
            forall|i: int| 0 <= i < index ==> (#[trigger] names@[i])@ == all[i].observer,
        decreases config.observers@.len() - index,
    {
        let observer = &config.observers[index];
        proof {
            assert(all.take(index + 1).drop_last() =~= all.take(index as int));
            assert(all.take(index + 1).last() == observer@);
            if observers_error(all.take(index + 1)) is Some {
                observers_error_extends(all, index + 1);
            }
        }
        if let Err(error) = validate_name("observer", observer.observer.as_str()) {
            return Err(error);
        }
        if !has_command(observer) {
            return Err(
                AlderError::validation(
                    joined3(
                        "observer `",
                        observer.observer.as_str(),
                        "` must have exactly one non-empty `list` or `probe` command",
                    ),
                ),
            );
        }
        let repeated = has_text(&names, observer.observer.as_str());
        proof {
            let before = all.take(index as int);
            let told = views::views(names@);
            if repeated {
                let i = choose|i: int| 0 <= i < told.len() && told[i] == observer@.observer;
                assert(names@[i]@ == all[i].observer);
                assert(before[i].observer == observer@.observer);
            } else if is_configured(before, observer@.observer) {
                let i = choose|i: int|
                    0 <= i < before.len() && (#[trigger] before[i]).observer == observer@.observer;
                assert(names@[i]@ == all[i].observer);
                assert(told[i] == observer@.observer);
            }
        }
        if repeated {
            return Err(
                AlderError::validation(
                    joined3(
                        "observer `",
                        observer.observer.as_str(),
                        "` is configured more than once",
                    ),
                ),
            );
        }
        names.push(observer.observer.clone());
        index += 1;
    }
    assert(all.take(index as int) =~= all);
    Ok(())
}

proof fn valid_observers_shape(observers: Seq<ObserverView>)
    requires
        observers_error(observers) is None,
    ensures
        forall|i: int|
            0 <= i < observers.len() ==> rules::is_name((#[trigger] observers[i]).observer)
                && has_one_command(observers[i]),
        forall|i: int, j: int|
            0 <= i < j < observers.len() ==> (#[trigger] observers[i]).observer != (
            #[trigger] observers[j]).observer,
    decreases observers.len(),
{
    if observers.len() > 0 {
        let front = observers.drop_last();
        valid_observers_shape(front);
        assert forall|i: int| 0 <= i < observers.len() implies rules::is_name(
            (#[trigger] observers[i]).observer,
        ) && has_one_command(observers[i]) by {
            if i < front.len() {
                assert(front[i] == observers[i]);
            }
        }
        assert forall|i: int, j: int| 0 <= i < j < observers.len() implies (
        #[trigger] observers[i]).observer != (#[trigger] observers[j]).observer by {
            assert(front[i] == observers[i]);
            if j < front.len() {
                assert(front[j] == observers[j]);
            }
        }
    }
}

/// In a valid manifest every observer has a name of its own and exactly one
/// command.
pub proof fn valid_manifests_name_each_observer_once(config: ConfigView)
    requires
        config_error(config) is None,
    ensures
        forall|i: int|
            0 <= i < config.observers.len() ==> rules::is_name(
                (#[trigger] config.observers[i]).observer,
            ) && has_one_command(config.observers[i]),
        forall|i: int, j: int|
            0 <= i < j < config.observers.len() ==> (#[trigger] config.observers[i]).observer != (
            #[trigger] config.observers[j]).observer,
{
    valid_observers_shape(config.observers);
}

// ---- the project ----

/// A project on this machine: where it is, where its manifest is, and what that
/// says.
#[derive(Debug)]
pub struct Project {
    pub root: String,
    pub config_path: String,
    pub config: Config,
}

/// The place `name` below the directory `root`.
pub open spec fn below(root: Seq<char>, name: Seq<char>) -> Seq<char> {
    if root.len() == 0 || root.last() == '/' {
        root + name
    } else {
        root + "/"@ + name
    }
}

pub fn path_below(root: &str, name: &str) -> (path: String)
    ensures
        path@ == below(root@, name@),
{
    let chars = text::chars_of(root);
    if chars.len() == 0 || chars[chars.len() - 1] == '/' {
        joined(root, name)
    } else {
        joined3(root, "/", name)
    }
}

impl Project {
    /// The projection database. It is derived data.
    pub fn state_db(&self) -> (path: String)
        ensures
            path@ == below(self.root@, ".alder/state.db"@),
    {
        path_below(self.root.as_str(), ".alder/state.db")
    }

    /// What was last read of the log. Like the projection it is derived data:
    /// deleting it costs one slower read.
    pub fn store_cache(&self) -> (path: String)
        ensures
            path@ == below(self.root@, ".alder/cache"@),
    {
        path_below(self.root.as_str(), ".alder/cache")
    }

    /// A file that is touched after every append. It is a hint to a driver on the
    /// same machine, and nothing rests on it.
    pub fn append_marker(&self) -> (path: String)
        ensures
            path@ == below(self.root@, ".alder/last-append"@),
    {
        path_below(self.root.as_str(), ".alder/last-append")
    }
}

pub open spec fn path_context(path: Seq<char>) -> JsonView {
    json::empty_object().with("path"@, JsonView::Text(path))
}

/// What a manifest that was found comes to: an error where it could not be read as
/// one, or is not valid.
pub open spec fn manifest_error(
    path: Seq<char>,
    read: core::result::Result<ConfigView, Seq<char>>,
) -> Option<ErrorView> {
    match read {
        Err(why) => Some(
            error::context_error(
                "config_invalid"@,
                "invalid manifest `"@ + path + "`: "@ + why,
                path_context(path),
            ),
        ),
        Ok(config) => match config_error(config) {
            Some(error) => Some(
                error::context_error("config_invalid"@, error.message, error.context),
            ),
            None => None,
        },
    }
}

pub open spec fn read_view(read: core::result::Result<Config, String>) -> core::result::Result<
    ConfigView,
    Seq<char>,
> {
    match read {
        Ok(config) => Ok(config@),
        Err(why) => Err(why@),
    }
}

/// The project whose manifest was found at `config_path`, as it was read.
pub fn open_project(
    root: String,
    config_path: String,
    read: core::result::Result<Config, String>,
) -> (outcome: Result<Project>)
    ensures
        match manifest_error(config_path@, read_view(read)) {
            Some(error) => outcome matches Err(e) && e@ == error,
            None => outcome matches Ok(project) && project.root@ == root@ && project.config_path@
                == config_path@ && Ok::<ConfigView, Seq<char>>(project.config@) == read_view(read),
        },
{
    match read {
        Err(why) => Err(
            AlderError::with_context(
                "config_invalid",
                joined3("invalid manifest `", config_path.as_str(), "`: ").concat(why.as_str()),
                Json::object().with("path", Json::text(config_path.as_str())),
            ),
        ),
        Ok(config) => match validate_config(&config) {
            Err(error) => Err(
                AlderError::with_context("config_invalid", error.message, error.context),
            ),
            Ok(_) => Ok(Project { root, config_path, config }),
        },
    }
}

/// There is no manifest here or anywhere above.
pub fn manifest_missing(start: &str) -> (error: AlderError)
    ensures
        error@ == error::context_error(
            "config_missing"@,
            "no .alder/config.json was found"@,
            json::empty_object().with("start"@, JsonView::Text(start@)),
        ),
{
    AlderError::with_context(
        "config_missing",
        "no .alder/config.json was found".to_owned(),
        Json::object().with("start", Json::text(start)),
    )
}

// ---- setting a project up ----

/// What is wrong with the identity that is asked for.
pub open spec fn request_error(
    prefix: Seq<char>,
    remote: Seq<char>,
    reference: Seq<char>,
) -> Option<ErrorView> {
    if !rules::is_name(prefix) {
        Some(name_error("prefix"@, prefix))
    } else {
        store_error(remote, reference)
    }
}

pub open spec fn fresh_config(
    prefix: Seq<char>,
    remote: Seq<char>,
    reference: Seq<char>,
) -> ConfigView {
    ConfigView {
        schema: "alder.config.v0"@,
        prefix,
        remote,
        reference,
        observers: Seq::empty(),
    }
}

/// The manifest of a new project, if its identity is one.
pub fn requested_config(prefix: &str, remote: &str, reference: &str) -> (outcome: Result<Config>)
    ensures
        match request_error(prefix@, remote@, reference@) {
            Some(error) => outcome matches Err(e) && e@ == error,
            None => outcome matches Ok(config) && config@ == fresh_config(
                prefix@,
                remote@,
                reference@,
            ),
        },
{
    if let Err(error) = validate_name("prefix", prefix) {
        return Err(error);
    }
    if let Err(error) = check_store(remote, reference) {
        return Err(error);
    }
    let config = Config {
        schema: "alder.config.v0".to_owned(),
        prefix: prefix.to_owned(),
        store: StoreConfig { remote: remote.to_owned(), reference: reference.to_owned() },
        observers: Vec::new(),
    };
    assert(config@.observers =~= Seq::<ObserverView>::empty());
    Ok(config)
}

/// A manifest that is written for a valid identity is a valid manifest.
pub proof fn new_manifests_are_valid(
    prefix: Seq<char>,
    remote: Seq<char>,
    reference: Seq<char>,
)
    requires
        request_error(prefix, remote, reference) is None,
    ensures
        config_error(fresh_config(prefix, remote, reference)) is None,
{
}

pub open spec fn same_identity(existing: ConfigView, requested: ConfigView) -> bool {
    existing.schema == "alder.config.v0"@ && existing.prefix == requested.prefix && existing.remote
        == requested.remote && existing.reference == requested.reference
}

/// Why the manifest that is there stands in the way of the one asked for.
pub open spec fn existing_error(
    path: Seq<char>,
    read: core::result::Result<ConfigView, Seq<char>>,
    requested: ConfigView,
) -> Option<ErrorView> {
    match read {
        Err(why) => Some(
            error::context_error(
                "config_conflict"@,
                "the existing manifest is invalid: "@ + why,
                path_context(path),
            ),
        ),
        Ok(existing) => if !same_identity(existing, requested) {
            Some(
                error::context_error(
                    "config_conflict"@,
                    "the requested identity or store conflicts with the existing manifest"@,
                    json::empty_object().with(
                        "existing"@,
                        json::empty_object().with("prefix"@, JsonView::Text(existing.prefix)).with(
                            "ref"@,
                            JsonView::Text(existing.reference),
                        ).with("remote"@, JsonView::Text(existing.remote)).with(
                            "schema"@,
                            JsonView::Text(existing.schema),
                        ),
                    ).with("path"@, JsonView::Text(path)).with(
                        "requested"@,
                        json::empty_object().with("prefix"@, JsonView::Text(requested.prefix)).with(
                            "ref"@,
                            JsonView::Text(requested.reference),
                        ).with("remote"@, JsonView::Text(requested.remote)),
                    ),
                ),
            )
        } else {
            match config_error(existing) {
                Some(error) => Some(
                    error::context_error("config_conflict"@, error.message, error.context),
                ),
                None => None,
            }
        },
    }
}

/// Whether the manifest that is there is the one asked for.
pub fn accept_existing(
    path: &str,
    read: core::result::Result<Config, String>,
    requested: &Config,
) -> (outcome: Result<Config>)
    ensures
        match existing_error(path@, read_view(read), requested@) {
            Some(error) => outcome matches Err(e) && e@ == error,
            None => outcome matches Ok(config) && Ok::<ConfigView, Seq<char>>(config@) == read_view(
                read,
            ),
        },
{
    let existing = match read {
        Err(why) => {
            return Err(
                AlderError::with_context(
                    "config_conflict",
                    joined("the existing manifest is invalid: ", why.as_str()),
                    Json::object().with("path", Json::text(path)),
                ),
            );
        },
        Ok(existing) => existing,
    };
    if !same_text(existing.schema.as_str(), "alder.config.v0") || !same_text(
        existing.prefix.as_str(),
        requested.prefix.as_str(),
    ) || !same_text(existing.store.remote.as_str(), requested.store.remote.as_str()) || !same_text(
        existing.store.reference.as_str(),
        requested.store.reference.as_str(),
    ) {
        return Err(
            AlderError::with_context(
                "config_conflict",
                "the requested identity or store conflicts with the existing manifest".to_owned(),
                Json::object().with(
                    "existing",
                    Json::object().with("prefix", Json::text(existing.prefix.as_str())).with(
                        "ref",
                        Json::text(existing.store.reference.as_str()),
                    ).with("remote", Json::text(existing.store.remote.as_str())).with(
                        "schema",
                        Json::text(existing.schema.as_str()),
                    ),
                ).with("path", Json::text(path)).with(
                    "requested",
                    Json::object().with("prefix", Json::text(requested.prefix.as_str())).with(
                        "ref",
                        Json::text(requested.store.reference.as_str()),
                    ).with("remote", Json::text(requested.store.remote.as_str())),
                ),
            ),
        );
    }
    match validate_config(&existing) {
        Err(error) => Err(
            AlderError::with_context("config_conflict", error.message, error.context),
        ),
        Ok(_) => Ok(existing),
    }
}

/// What a log comes to that a project with this prefix is to be set on.
pub open spec fn store_verdict(
    head: HeadView,
    events: Seq<EventView>,
    prefix: Seq<char>,
) -> core::result::Result<u64, ErrorView> {
    match rules::folded(events) {
        Err(error) => Err(
            error::context_error(
                "config_conflict"@,
                "the selected ref is not a compatible Alder log: "@ + error.message,
                error.context,
            ),
        ),
        Ok(state) => match rules::foreign_key(
            crate::catalog::listing::<String>(state.work.dom()),
            prefix,
        ) {
            Some(id) => Err(rules::prefix_error(prefix, id)),
            None => Ok(head.seq),
        },
    }
}

/// The place that the log of a project to be set up stands at, if it is one of
/// this project.
pub fn verify_store(head: &Head, events: &Vec<Event>, prefix: &str) -> (outcome: Result<u64>)
    ensures
        match store_verdict(head@, views::views(events@), prefix@) {
            Ok(seq) => outcome matches Ok(s) && s == seq,
            Err(error) => outcome matches Err(e) && e@ == error,
        },
{
    match ProjectState::fold(events.as_slice()) {
        Err(error) => Err(
            AlderError::with_context(
                "config_conflict",
                joined(
                    "the selected ref is not a compatible Alder log: ",
                    error.message.as_str(),
                ),
                error.context,
            ),
        ),
        Ok(state) => match state.validate_prefix(prefix) {
            Err(error) => Err(error),
            Ok(_) => Ok(head.sequence()),
        },
    }
}

/// A project that was set up, or that was there already, and where its log stands.
#[derive(Debug)]
pub struct InitResult {
    pub project: Project,
    pub already_initialized: bool,
    pub head_seq: u64,
}

pub open spec fn init_output(result: InitResult) -> OutputView {
    let config = result.project.config@;
    documents::shown(
        json::empty_object().with("head"@, JsonView::Int(result.head_seq as int)).with(
            "path"@,
            JsonView::Text(result.project.config_path@),
        ).with("prefix"@, JsonView::Text(config.prefix)).with(
            "ref"@,
            JsonView::Text(config.reference),
        ).with("remote"@, JsonView::Text(config.remote)).with(
            "schema"@,
            JsonView::Text("alder.init.v0"@),
        ).with(
            "status"@,
            JsonView::Text(
                if result.already_initialized {
                    "already_initialized"@
                } else {
                    "initialized"@
                },
            ),
        ),
        (if result.already_initialized {
            "already initialized "@
        } else {
            "initialized "@
        }) + result.project.config_path@ + " · "@ + config.remote + " "@ + config.reference,
    )
}

pub fn init_answer(result: &InitResult) -> (output: Output)
    ensures
        output@ == init_output(*result),
{
    let config = &result.project.config;
    let status: &str = if result.already_initialized {
        "already_initialized"
    } else {
        "initialized"
    };
    let start: &str = if result.already_initialized {
        "already initialized "
    } else {
        "initialized "
    };
    Output::new(
        Json::object().with("head", Json::number(result.head_seq)).with(
            "path",
            Json::text(result.project.config_path.as_str()),
        ).with("prefix", Json::text(config.prefix.as_str())).with(
            "ref",
            Json::text(config.store.reference.as_str()),
        ).with("remote", Json::text(config.store.remote.as_str())).with(
            "schema",
            Json::text("alder.init.v0"),
        ).with("status", Json::text(status)),
        joined5(
            start,
            result.project.config_path.as_str(),
            " · ",
            config.store.remote.as_str(),
            " ",
        ).concat(config.store.reference.as_str()),
    )
}

} // verus!

//! Work items: what there is to do, and the statements that change it.

use vstd::prelude::*;

use crate::catalog::Replica;
use crate::instant::Instant;
use crate::views;
use crate::views::{opt_replica, replicas};

verus! {

/// Where a work item stands.
#[derive(Debug, Clone, Copy, PartialEq, Eq, Structural)]
pub enum WorkState {
    Open,
    Blocked,
    Done,
    Dropped,
}

impl WorkState {
    pub open spec fn terminal(self) -> bool {
        self is Done || self is Dropped
    }

    pub fn is_terminal(self) -> (terminal: bool)
        ensures
            terminal == self.terminal(),
    {
        match self {
            WorkState::Done | WorkState::Dropped => true,
            WorkState::Open | WorkState::Blocked => false,
        }
    }

    pub open spec fn name(self) -> Seq<char> {
        match self {
            WorkState::Open => "open"@,
            WorkState::Blocked => "blocked"@,
            WorkState::Done => "done"@,
            WorkState::Dropped => "dropped"@,
        }
    }

    /// The word for the state in documents.
    pub fn as_str(self) -> (name: &'static str)
        ensures
            name@ == self.name(),
    {
        match self {
            WorkState::Open => "open",
            WorkState::Blocked => "blocked",
            WorkState::Done => "done",
            WorkState::Dropped => "dropped",
        }
    }

    pub open spec fn title(self) -> Seq<char> {
        match self {
            WorkState::Open => "Open"@,
            WorkState::Blocked => "Blocked"@,
            WorkState::Done => "Done"@,
            WorkState::Dropped => "Dropped"@,
        }
    }

    /// The word for the state in messages.
    pub fn as_title(self) -> (title: &'static str)
        ensures
            title@ == self.title(),
    {
        match self {
            WorkState::Open => "Open",
            WorkState::Blocked => "Blocked",
            WorkState::Done => "Done",
            WorkState::Dropped => "Dropped",
        }
    }
}

/// A named condition that an attempt has to meet.
#[derive(Debug, PartialEq, Eq)]
pub struct CheckDefinition {
    pub key: String,
    pub description: String,
}

#[verifier::ext_equal]
pub struct CheckDefinitionView {
    pub key: Seq<char>,
    pub description: Seq<char>,
}

impl View for CheckDefinition {
    type V = CheckDefinitionView;

    open spec fn view(&self) -> CheckDefinitionView {
        CheckDefinitionView {
            key: self.key@,
            description: self.description@,
        }
    }
}

impl Replica for CheckDefinition {
    fn replica(&self) -> (copy: CheckDefinition) {
        CheckDefinition {
            key: self.key.clone(),
            description: self.description.clone(),
        }
    }
}

/// A work item as it is first stated.
#[derive(Debug, PartialEq, Eq)]
pub struct WorkDefinition {
    pub id: String,
    pub title: String,
    pub spec: Option<String>,
    pub priority: i64,
    pub requires: Vec<String>,
    pub checks: Vec<CheckDefinition>,
}

#[verifier::ext_equal]
pub struct WorkDefinitionView {
    pub id: Seq<char>,
    pub title: Seq<char>,
    pub spec: Option<Seq<char>>,
    pub priority: i64,
    pub requires: Seq<Seq<char>>,
    pub checks: Seq<CheckDefinitionView>,
}

impl View for WorkDefinition {
    type V = WorkDefinitionView;

    open spec fn view(&self) -> WorkDefinitionView {
        WorkDefinitionView {
            id: self.id@,
            title: self.title@,
            spec: views::opt_view(self.spec),
            priority: self.priority,
            requires: views::views(self.requires@),
            checks: views::views(self.checks@),
        }
    }
}

impl Replica for WorkDefinition {
    fn replica(&self) -> (copy: WorkDefinition) {
        WorkDefinition {
            id: self.id.clone(),
            title: self.title.clone(),
            spec: opt_replica(&self.spec),
            priority: self.priority,
            requires: replicas(&self.requires),
            checks: replicas(&self.checks),
        }
    }
}

/// A text that can be set to nothing.
#[derive(Debug, PartialEq, Eq)]
pub struct NullableString(pub Option<String>);

impl View for NullableString {
    type V = Option<Seq<char>>;

    open spec fn view(&self) -> Option<Seq<char>> {
        views::opt_view(self.0)
    }
}

impl Replica for NullableString {
    fn replica(&self) -> (copy: NullableString) {
        NullableString(opt_replica(&self.0))
    }
}

/// A change between open and blocked.
#[derive(Debug, PartialEq, Eq)]
pub enum WorkStateChange {
    Block { reason: String, until: Option<Instant> },
    Unblock { reason: String },
}

#[verifier::ext_equal]
pub enum WorkStateChangeView {
    Block { reason: Seq<char>, until: Option<Instant> },
    Unblock { reason: Seq<char> },
}

impl View for WorkStateChange {
    type V = WorkStateChangeView;

    open spec fn view(&self) -> WorkStateChangeView {
        match self {
            WorkStateChange::Block { reason, until } => WorkStateChangeView::Block {
                reason: reason@,
                until: *until,
            },
            WorkStateChange::Unblock { reason } => WorkStateChangeView::Unblock { reason: reason@ },
        }
    }
}

impl Replica for WorkStateChange {
    fn replica(&self) -> (copy: WorkStateChange) {
        match self {
            WorkStateChange::Block { reason, until } => WorkStateChange::Block {
                reason: reason.clone(),
                until: *until,
            },
            WorkStateChange::Unblock { reason } => WorkStateChange::Unblock {
                reason: reason.clone(),
            },
        }
    }
}

/// One step of a change to the work graph.
#[derive(Debug, PartialEq, Eq)]
pub enum WorkOperation {
    Add { work: WorkDefinition },
    Edit {
        id: String,
        title: Option<String>,
        spec: Option<NullableString>,
        priority: Option<i64>,
        add_requires: Vec<String>,
        remove_requires: Vec<String>,
        add_checks: Vec<CheckDefinition>,
        remove_checks: Vec<String>,
        state_change: Option<WorkStateChange>,
    },
}

#[verifier::ext_equal]
pub enum WorkOperationView {
    Add { work: WorkDefinitionView },
    Edit {
        id: Seq<char>,
        title: Option<Seq<char>>,
        spec: Option<Option<Seq<char>>>,
        priority: Option<i64>,
        add_requires: Seq<Seq<char>>,
        remove_requires: Seq<Seq<char>>,
        add_checks: Seq<CheckDefinitionView>,
        remove_checks: Seq<Seq<char>>,
        state_change: Option<WorkStateChangeView>,
    },
}

impl View for WorkOperation {
    type V = WorkOperationView;

    open spec fn view(&self) -> WorkOperationView {
        match self {
            WorkOperation::Add { work } => WorkOperationView::Add { work: work@ },
            WorkOperation::Edit { id, title, spec, priority, add_requires, remove_requires, add_checks, remove_checks, state_change } => {
                WorkOperationView::Edit {
                    id: id@,
                    title: views::opt_view(*title),
                    spec: views::opt_view(*spec),
                    priority: *priority,
                    add_requires: views::views(add_requires@),
                    remove_requires: views::views(remove_requires@),
                    add_checks: views::views(add_checks@),
                    remove_checks: views::views(remove_checks@),
                    state_change: views::opt_view(*state_change),
                }
            },
        }
    }
}

impl Replica for WorkOperation {
    fn replica(&self) -> (copy: WorkOperation) {
        match self {
            WorkOperation::Add { work } => WorkOperation::Add { work: work.replica() },
            WorkOperation::Edit { id, title, spec, priority, add_requires, remove_requires, add_checks, remove_checks, state_change } => {
                WorkOperation::Edit {
                    id: id.clone(),
                    title: opt_replica(title),
                    spec: opt_replica(spec),
                    priority: *priority,
                    add_requires: replicas(add_requires),
                    remove_requires: replicas(remove_requires),
                    add_checks: replicas(add_checks),
                    remove_checks: replicas(remove_checks),
                    state_change: opt_replica(state_change),
                }
            },
        }
    }
}

/// A work item as the log has left it.
#[derive(Debug, PartialEq, Eq)]
pub struct Work {
    pub id: String,
    pub title: String,
    pub spec: Option<String>,
    pub priority: i64,
    pub state: WorkState,
    pub block_reason: Option<String>,
    pub block_until: Option<Instant>,
    pub outcome: Option<String>,
    pub opened_seq: u64,
    pub changed_seq: u64,
    pub requires: Vec<String>,
    pub checks: Vec<CheckDefinition>,
}

#[verifier::ext_equal]
pub struct WorkView {
    pub id: Seq<char>,
    pub title: Seq<char>,
    pub spec: Option<Seq<char>>,
    pub priority: i64,
    pub state: WorkState,
    pub block_reason: Option<Seq<char>>,
    pub block_until: Option<Instant>,
    pub outcome: Option<Seq<char>>,
    pub opened_seq: u64,
    pub changed_seq: u64,
    pub requires: Seq<Seq<char>>,
    pub checks: Seq<CheckDefinitionView>,
}

impl View for Work {
    type V = WorkView;

    open spec fn view(&self) -> WorkView {
        WorkView {
            id: self.id@,
            title: self.title@,
            spec: views::opt_view(self.spec),
            priority: self.priority,
            state: self.state,
            block_reason: views::opt_view(self.block_reason),
            block_until: self.block_until,
            outcome: views::opt_view(self.outcome),
            opened_seq: self.opened_seq,
            changed_seq: self.changed_seq,
            requires: views::views(self.requires@),
            checks: views::views(self.checks@),
        }
    }
}

impl Replica for Work {
    fn replica(&self) -> (copy: Work) {
        Work {
            id: self.id.clone(),
            title: self.title.clone(),
            spec: opt_replica(&self.spec),
            priority: self.priority,
            state: self.state,
            block_reason: opt_replica(&self.block_reason),
            block_until: self.block_until,
            outcome: opt_replica(&self.outcome),
            opened_seq: self.opened_seq,
            changed_seq: self.changed_seq,
            requires: replicas(&self.requires),
            checks: replicas(&self.checks),
        }
    }
}

impl WorkOperationView {
    pub open spec fn target(self) -> Seq<char> {
        match self {
            WorkOperationView::Add { work } => work.id,
            WorkOperationView::Edit { id, .. } => id,
        }
    }
}

impl WorkOperation {
    /// The ID of the work item that the operation is about.
    pub fn id(&self) -> (id: &str)
        ensures
            id@ == self@.target(),
    {
        match self {
            WorkOperation::Add { work } => work.id.as_str(),
            WorkOperation::Edit { id, .. } => id.as_str(),
        }
    }
}

} // verus!

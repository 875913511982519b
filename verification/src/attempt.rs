//! Attempts: runs at one work item, and how they came out.

use vstd::prelude::*;

use crate::catalog::{Catalog, Replica};
use crate::json::{Json, JsonView};
use crate::views;
use crate::views::opt_replica;

verus! {

#[derive(Debug, Clone, Copy, PartialEq, Eq, Structural)]
pub enum AttemptState {
    Starting,
    Active,
    Ended,
}

impl AttemptState {
    pub open spec fn name(self) -> Seq<char> {
        match self {
            AttemptState::Starting => "starting"@,
            AttemptState::Active => "active"@,
            AttemptState::Ended => "ended"@,
        }
    }

    pub fn as_str(self) -> (name: &'static str)
        ensures
            name@ == self.name(),
    {
        match self {
            AttemptState::Starting => "starting",
            AttemptState::Active => "active",
            AttemptState::Ended => "ended",
        }
    }
}

#[derive(Debug, Clone, Copy, PartialEq, Eq, Structural)]
pub enum AttemptOutcome {
    Succeeded,
    Failed,
    Cancelled,
    Lost,
    NotStarted,
}

impl AttemptOutcome {
    /// Whether the attempt came to an end without success.
    pub fn is_non_success(self) -> (non_success: bool)
        ensures
            non_success == !(self is Succeeded),
    {
        match self {
            AttemptOutcome::Succeeded => false,
            _ => true,
        }
    }

    pub open spec fn name(self) -> Seq<char> {
        match self {
            AttemptOutcome::Succeeded => "succeeded"@,
            AttemptOutcome::Failed => "failed"@,
            AttemptOutcome::Cancelled => "cancelled"@,
            AttemptOutcome::Lost => "lost"@,
            AttemptOutcome::NotStarted => "not_started"@,
        }
    }

    pub fn as_str(self) -> (name: &'static str)
        ensures
            name@ == self.name(),
    {
        match self {
            AttemptOutcome::Succeeded => "succeeded",
            AttemptOutcome::Failed => "failed",
            AttemptOutcome::Cancelled => "cancelled",
            AttemptOutcome::Lost => "lost",
            AttemptOutcome::NotStarted => "not_started",
        }
    }
}

#[derive(Debug, Clone, Copy, PartialEq, Eq, Structural)]
pub enum CheckStatus {
    Pending,
    Satisfied,
    Failed,
}

impl CheckStatus {
    pub open spec fn name(self) -> Seq<char> {
        match self {
            CheckStatus::Pending => "pending"@,
            CheckStatus::Satisfied => "satisfied"@,
            CheckStatus::Failed => "failed"@,
        }
    }

    pub fn as_str(self) -> (name: &'static str)
        ensures
            name@ == self.name(),
    {
        match self {
            CheckStatus::Pending => "pending",
            CheckStatus::Satisfied => "satisfied",
            CheckStatus::Failed => "failed",
        }
    }
}

/// An attempt as it is first stated.
#[derive(Debug, PartialEq, Eq)]
pub struct AttemptDefinition {
    pub id: String,
    pub work_id: String,
    pub tier: Option<String>,
    pub metadata: Catalog<String, Json>,
}

#[verifier::ext_equal]
pub struct AttemptDefinitionView {
    pub id: Seq<char>,
    pub work_id: Seq<char>,
    pub tier: Option<Seq<char>>,
    pub metadata: Map<Seq<char>, JsonView>,
}

impl View for AttemptDefinition {
    type V = AttemptDefinitionView;

    open spec fn view(&self) -> AttemptDefinitionView {
        AttemptDefinitionView {
            id: self.id@,
            work_id: self.work_id@,
            tier: views::opt_view(self.tier),
            metadata: self.metadata@,
        }
    }
}

impl Replica for AttemptDefinition {
    fn replica(&self) -> (copy: AttemptDefinition) {
        AttemptDefinition {
            id: self.id.clone(),
            work_id: self.work_id.clone(),
            tier: opt_replica(&self.tier),
            metadata: self.metadata.replica(),
        }
    }
}

/// The verdict on one check, with what it rests on.
#[derive(Debug, PartialEq, Eq)]
pub struct CheckUpdate {
    pub key: String,
    pub status: CheckStatus,
    pub evidence: String,
}

#[verifier::ext_equal]
pub struct CheckUpdateView {
    pub key: Seq<char>,
    pub status: CheckStatus,
    pub evidence: Seq<char>,
}

impl View for CheckUpdate {
    type V = CheckUpdateView;

    open spec fn view(&self) -> CheckUpdateView {
        CheckUpdateView {
            key: self.key@,
            status: self.status,
            evidence: self.evidence@,
        }
    }
}

impl Replica for CheckUpdate {
    fn replica(&self) -> (copy: CheckUpdate) {
        CheckUpdate {
            key: self.key.clone(),
            status: self.status,
            evidence: self.evidence.clone(),
        }
    }
}

/// How one check stands in an attempt.
#[derive(Debug, PartialEq, Eq)]
pub struct AttemptCheck {
    pub key: String,
    pub status: CheckStatus,
    pub evidence: Option<String>,
    pub updated_seq: Option<u64>,
}

#[verifier::ext_equal]
pub struct AttemptCheckView {
    pub key: Seq<char>,
    pub status: CheckStatus,
    pub evidence: Option<Seq<char>>,
    pub updated_seq: Option<u64>,
}

impl View for AttemptCheck {
    type V = AttemptCheckView;

    open spec fn view(&self) -> AttemptCheckView {
        AttemptCheckView {
            key: self.key@,
            status: self.status,
            evidence: views::opt_view(self.evidence),
            updated_seq: self.updated_seq,
        }
    }
}

impl Replica for AttemptCheck {
    fn replica(&self) -> (copy: AttemptCheck) {
        AttemptCheck {
            key: self.key.clone(),
            status: self.status,
            evidence: opt_replica(&self.evidence),
            updated_seq: self.updated_seq,
        }
    }
}

/// An attempt as the log has left it.
#[derive(Debug, PartialEq, Eq)]
pub struct Attempt {
    pub id: String,
    pub work_id: String,
    pub state: AttemptState,
    pub outcome: Option<AttemptOutcome>,
    pub tier: Option<String>,
    pub handle: Option<String>,
    pub metadata: Catalog<String, Json>,
    pub note: Option<String>,
    pub started_seq: u64,
    pub bound_seq: Option<u64>,
    pub updated_seq: u64,
    pub ended_seq: Option<u64>,
    pub checks: Catalog<String, AttemptCheck>,
}

#[verifier::ext_equal]
pub struct AttemptView {
    pub id: Seq<char>,
    pub work_id: Seq<char>,
    pub state: AttemptState,
    pub outcome: Option<AttemptOutcome>,
    pub tier: Option<Seq<char>>,
    pub handle: Option<Seq<char>>,
    pub metadata: Map<Seq<char>, JsonView>,
    pub note: Option<Seq<char>>,
    pub started_seq: u64,
    pub bound_seq: Option<u64>,
    pub updated_seq: u64,
    pub ended_seq: Option<u64>,
    pub checks: Map<Seq<char>, AttemptCheckView>,
}

impl View for Attempt {
    type V = AttemptView;

    open spec fn view(&self) -> AttemptView {
        AttemptView {
            id: self.id@,
            work_id: self.work_id@,
            state: self.state,
            outcome: self.outcome,
            tier: views::opt_view(self.tier),
            handle: views::opt_view(self.handle),
            metadata: self.metadata@,
            note: views::opt_view(self.note),
            started_seq: self.started_seq,
            bound_seq: self.bound_seq,
            updated_seq: self.updated_seq,
            ended_seq: self.ended_seq,
            checks: self.checks@,
        }
    }
}

impl Replica for Attempt {
    fn replica(&self) -> (copy: Attempt) {
        Attempt {
            id: self.id.clone(),
            work_id: self.work_id.clone(),
            state: self.state,
            outcome: self.outcome,
            tier: opt_replica(&self.tier),
            handle: opt_replica(&self.handle),
            metadata: self.metadata.replica(),
            note: opt_replica(&self.note),
            started_seq: self.started_seq,
            bound_seq: self.bound_seq,
            updated_seq: self.updated_seq,
            ended_seq: self.ended_seq,
            checks: self.checks.replica(),
        }
    }
}

} // verus!

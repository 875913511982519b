//! What can be asked for: the commands and their arguments.
//!
//! Queries are about the project as a whole. Every mutation stands under the
//! noun whose ID it takes, so that the noun says what the argument is.

use vstd::prelude::*;

use crate::attempt::AttemptOutcome;

verus! {

/// A command, and whether its answer is to be one JSON document.
#[derive(Debug)]
pub struct Cli {
    pub json: bool,
    pub command: Command,
}

#[derive(Debug)]
pub enum Command {
    /// Creates the manifest, or verifies the one there is.
    Init(InitArgs),
    /// The default context pack.
    Status(StatusArgs),
    /// Work that can be started, best first.
    Next(OverlayArgs),
    /// Current state and history of one object.
    Show(ShowArgs),
    /// The current observation picture.
    Observations,
    /// Runs the observers and records the levels that changed.
    Refresh,
    /// Compares the attempts with what was observed of them.
    Reconcile(ReconcileArgs),
    Work(WorkArgs),
    Attempt(AttemptArgs),
    Question(QuestionArgs),
    Observation(ObservationArgs),
    Loop(LoopArgs),
    Debug(DebugArgs),
}

#[derive(Debug)]
pub struct InitArgs {
    pub prefix: String,
    pub remote: String,
    pub reference: String,
}

#[derive(Debug)]
pub struct OverlayArgs {
    /// The file of a graph change to lay over the project.
    pub changes: Option<String>,
}

#[derive(Debug)]
pub struct StatusArgs {
    pub changes: Option<String>,
    /// Every section in full, and the recent events.
    pub full: bool,
    /// The sections to show in full, in place of the counts.
    pub section: Vec<StatusSection>,
}

/// The sections of the status, named as their keys in the document are.
#[derive(Debug, Clone, Copy, PartialEq, Eq, Structural)]
pub enum StatusSection {
    Attention,
    InFlight,
    Ready,
    WaitingOnHuman,
    Blocked,
}

impl StatusSection {
    pub open spec fn key(self) -> Seq<char> {
        match self {
            StatusSection::Attention => "attention"@,
            StatusSection::InFlight => "in_flight"@,
            StatusSection::Ready => "ready"@,
            StatusSection::WaitingOnHuman => "waiting_on_human"@,
            StatusSection::Blocked => "blocked"@,
        }
    }

    pub fn as_str(self) -> (key: &'static str)
        ensures
            key@ == self.key(),
    {
        match self {
            StatusSection::Attention => "attention",
            StatusSection::InFlight => "in_flight",
            StatusSection::Ready => "ready",
            StatusSection::WaitingOnHuman => "waiting_on_human",
            StatusSection::Blocked => "blocked",
        }
    }
}

#[derive(Debug)]
pub struct ShowArgs {
    pub id: String,
}

#[derive(Debug)]
pub struct ReconcileArgs {
    pub no_refresh: bool,
}

#[derive(Debug)]
pub struct ObservationArgs {
    pub command: ObservationCommand,
}

#[derive(Debug)]
pub enum ObservationCommand {
    /// Reports one current level. A level that is there already is no news.
    Report(ObservationReportArgs),
    /// Retires a key. One that is not there is no news.
    Retire(ObservationRetireArgs),
}

#[derive(Debug)]
pub struct ObservationReportArgs {
    pub observer: String,
    pub subject: String,
    pub field: String,
    pub level: String,
}

#[derive(Debug)]
pub struct ObservationRetireArgs {
    pub observer: String,
    pub subject: String,
    pub field: String,
}

#[derive(Debug)]
pub struct WorkArgs {
    pub command: WorkCommand,
}

#[derive(Debug)]
pub enum WorkCommand {
    /// Admits work, one item or a whole graph change.
    Add(WorkAddArgs),
    /// Changes fields, dependencies or checks, and never the state.
    Edit(WorkEditArgs),
    /// Records an attempt before its worker is launched.
    Start(WorkStartArgs),
    /// Completes work through its attempt or with external evidence.
    Finish(WorkFinishArgs),
    /// Drops work, ending its active attempt where it has one.
    Drop(WorkDropArgs),
    /// Makes terminal work open again.
    Reopen(WorkReasonArgs),
    /// Blocks work on something outside the graph.
    Block(WorkBlockArgs),
    /// Makes blocked work open again.
    Unblock(WorkReasonArgs),
    /// Asks for a human decision, which blocks the work.
    Ask(WorkAskArgs),
}

#[derive(Debug)]
pub struct WorkAddArgs {
    pub from: Option<String>,
    pub title: Option<String>,
    pub spec: Option<String>,
    pub priority: i64,
    pub requires: Vec<String>,
    pub check: Vec<String>,
}

#[derive(Debug)]
pub struct WorkEditArgs {
    pub work: Option<String>,
    pub from: Option<String>,
    pub title: Option<String>,
    pub spec: Option<String>,
    pub clear_spec: bool,
    pub priority: Option<i64>,
    pub add_requires: Vec<String>,
    pub remove_requires: Vec<String>,
    pub add_check: Vec<String>,
    pub remove_check: Vec<String>,
    pub why: Option<String>,
}

#[derive(Debug)]
pub struct WorkStartArgs {
    pub work: String,
    /// The runner's name for the rung of this attempt; any text will do.
    pub tier: Option<String>,
    pub meta: Vec<String>,
}

#[derive(Debug)]
pub struct WorkFinishArgs {
    pub work: String,
    pub attempt: Option<String>,
    pub external: bool,
    pub evidence: Option<String>,
}

#[derive(Debug)]
pub struct WorkDropArgs {
    pub work: String,
    pub attempt: Option<String>,
    pub outcome: Option<NonSuccessOutcome>,
    pub why: String,
}

#[derive(Debug)]
pub struct WorkReasonArgs {
    pub work: String,
    pub why: String,
}

#[derive(Debug)]
pub struct WorkBlockArgs {
    pub work: String,
    pub why: String,
    /// When the block is to be reviewed, such as 2026-08-04T15:00:00Z. Nothing
    /// unblocks by itself.
    pub until: Option<String>,
}

#[derive(Debug)]
pub struct WorkAskArgs {
    pub work: String,
    pub question: String,
}

#[derive(Debug)]
pub struct AttemptArgs {
    pub command: AttemptCommand,
}

#[derive(Debug)]
pub enum AttemptCommand {
    /// Binds a handle, records progress, or records check results.
    Edit(AttemptEditArgs),
    /// Ends an attempt that did not succeed.
    End(AttemptEndArgs),
}

#[derive(Debug)]
pub struct AttemptEditArgs {
    pub attempt: String,
    /// A foreign name for the execution, kept as it is.
    pub handle: Option<String>,
    pub tier: Option<String>,
    pub meta: Vec<String>,
    pub satisfied: Vec<String>,
    pub failed: Vec<String>,
    pub evidence: Option<String>,
    /// A file whose text is the evidence.
    pub evidence_file: Option<String>,
    pub note: Option<String>,
    /// A file whose text is the note.
    pub note_file: Option<String>,
}

#[derive(Debug)]
pub struct AttemptEndArgs {
    pub attempt: String,
    pub outcome: NonSuccessOutcome,
    pub why: String,
}

#[derive(Debug, Clone, Copy, PartialEq, Eq, Structural)]
pub enum NonSuccessOutcome {
    Failed,
    Cancelled,
    Lost,
    NotStarted,
}

impl NonSuccessOutcome {
    pub open spec fn meant(self) -> AttemptOutcome {
        match self {
            NonSuccessOutcome::Failed => AttemptOutcome::Failed,
            NonSuccessOutcome::Cancelled => AttemptOutcome::Cancelled,
            NonSuccessOutcome::Lost => AttemptOutcome::Lost,
            NonSuccessOutcome::NotStarted => AttemptOutcome::NotStarted,
        }
    }
}

impl From<NonSuccessOutcome> for AttemptOutcome {
    fn from(value: NonSuccessOutcome) -> (outcome: AttemptOutcome) {
        match value {
            NonSuccessOutcome::Failed => AttemptOutcome::Failed,
            NonSuccessOutcome::Cancelled => AttemptOutcome::Cancelled,
            NonSuccessOutcome::Lost => AttemptOutcome::Lost,
            NonSuccessOutcome::NotStarted => AttemptOutcome::NotStarted,
        }
    }
}

impl vstd::std_specs::convert::FromSpecImpl<NonSuccessOutcome> for AttemptOutcome {
    open spec fn obeys_from_spec() -> bool {
        true
    }

    open spec fn from_spec(value: NonSuccessOutcome) -> AttemptOutcome {
        value.meant()
    }
}

#[derive(Debug)]
pub struct QuestionArgs {
    pub command: QuestionCommand,
}

#[derive(Debug)]
pub enum QuestionCommand {
    /// Records a decision. The work stays blocked.
    Answer(QuestionAnswerArgs),
}

#[derive(Debug)]
pub struct QuestionAnswerArgs {
    pub question: String,
    pub answer: String,
}

#[derive(Debug)]
pub struct LoopArgs {
    pub command: LoopCommand,
}

#[derive(Debug)]
pub enum LoopCommand {
    /// Asks the driver to stop waking the leader.
    Pause(OptionalReasonArgs),
    /// Asks the driver to wake the leader again.
    Resume,
    /// Sets the engine that is wanted; any name will do.
    Use(LoopUseArgs),
    /// Asks the next wake to start a fresh session.
    Rotate(OptionalReasonArgs),
    /// Asks the driver to wake the leader now.
    Nudge(OptionalReasonArgs),
}

#[derive(Debug)]
pub struct OptionalReasonArgs {
    pub why: Option<String>,
}

#[derive(Debug)]
pub struct LoopUseArgs {
    pub engine: String,
}

#[derive(Debug)]
pub struct DebugArgs {
    pub command: DebugCommand,
}

#[derive(Debug)]
pub enum DebugCommand {
    Log(DebugLogArgs),
    Db(DebugDbArgs),
    Query(DebugQueryArgs),
    Observations(DebugObservationsArgs),
}

#[derive(Debug)]
pub struct DebugLogArgs {
    pub command: DebugLogCommand,
}

#[derive(Debug)]
pub enum DebugLogCommand {
    Head,
    Tail,
    Show { seq: u64 },
    Verify,
}

#[derive(Debug)]
pub struct DebugDbArgs {
    pub command: DebugDbCommand,
}

#[derive(Debug)]
pub enum DebugDbCommand {
    Rebuild,
    Verify,
}

#[derive(Debug)]
pub struct DebugQueryArgs {
    pub sql: String,
}

#[derive(Debug)]
pub struct DebugObservationsArgs {
    pub kind: Option<String>,
    pub run: bool,
}

} // verus!

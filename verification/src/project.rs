//! The project as its log has left it.

use vstd::prelude::*;

use crate::attempt::{Attempt, AttemptView};
use crate::catalog::{Catalog, Replica};
use crate::event::{LoopControl, LoopControlView};
use crate::observation::{Observation, ObservationKey, ObservationKeyView, ObservationView};
use crate::question::{Question, QuestionView};
use crate::work::{Work, WorkView};

verus! {

/// The state that a log folds into.
#[derive(Debug, PartialEq, Eq)]
pub struct ProjectState {
    pub observations: Catalog<ObservationKey, Observation>,
    pub work: Catalog<String, Work>,
    pub attempts: Catalog<String, Attempt>,
    pub questions: Catalog<String, Question>,
    pub loop_control: LoopControl,
}

#[verifier::ext_equal]
pub struct StateView {
    pub observations: Map<ObservationKeyView, ObservationView>,
    pub work: Map<Seq<char>, WorkView>,
    pub attempts: Map<Seq<char>, AttemptView>,
    pub questions: Map<Seq<char>, QuestionView>,
    pub loop_control: LoopControlView,
}

impl View for ProjectState {
    type V = StateView;

    open spec fn view(&self) -> StateView {
        StateView {
            observations: self.observations@,
            work: self.work@,
            attempts: self.attempts@,
            questions: self.questions@,
            loop_control: self.loop_control@,
        }
    }
}

impl Replica for ProjectState {
    fn replica(&self) -> (copy: ProjectState) {
        ProjectState {
            observations: self.observations.replica(),
            work: self.work.replica(),
            attempts: self.attempts.replica(),
            questions: self.questions.replica(),
            loop_control: self.loop_control.replica(),
        }
    }
}


} // verus!

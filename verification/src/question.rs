//! Questions: decisions that work waits for.

use vstd::prelude::*;

use crate::catalog::Replica;
use crate::views;
use crate::views::{opt_replica, replicas};

verus! {

/// A question as it is asked.
#[derive(Debug, PartialEq, Eq)]
pub struct QuestionDefinition {
    pub id: String,
    pub work_id: String,
    pub text: String,
}

#[verifier::ext_equal]
pub struct QuestionDefinitionView {
    pub id: Seq<char>,
    pub work_id: Seq<char>,
    pub text: Seq<char>,
}

impl View for QuestionDefinition {
    type V = QuestionDefinitionView;

    open spec fn view(&self) -> QuestionDefinitionView {
        QuestionDefinitionView {
            id: self.id@,
            work_id: self.work_id@,
            text: self.text@,
        }
    }
}

impl Replica for QuestionDefinition {
    fn replica(&self) -> (copy: QuestionDefinition) {
        QuestionDefinition {
            id: self.id.clone(),
            work_id: self.work_id.clone(),
            text: self.text.clone(),
        }
    }
}

/// One answer to a question, and who gave it.
#[derive(Debug, PartialEq, Eq)]
pub struct QuestionAnswer {
    pub answer: String,
    pub seq: u64,
    pub actor: String,
}

#[verifier::ext_equal]
pub struct QuestionAnswerView {
    pub answer: Seq<char>,
    pub seq: u64,
    pub actor: Seq<char>,
}

impl View for QuestionAnswer {
    type V = QuestionAnswerView;

    open spec fn view(&self) -> QuestionAnswerView {
        QuestionAnswerView {
            answer: self.answer@,
            seq: self.seq,
            actor: self.actor@,
        }
    }
}

impl Replica for QuestionAnswer {
    fn replica(&self) -> (copy: QuestionAnswer) {
        QuestionAnswer {
            answer: self.answer.clone(),
            seq: self.seq,
            actor: self.actor.clone(),
        }
    }
}

/// A question as the log has left it; the last answer is the current one.
#[derive(Debug, PartialEq, Eq)]
pub struct Question {
    pub id: String,
    pub work_id: String,
    pub text: String,
    pub answer: Option<String>,
    pub asked_seq: u64,
    pub answered_seq: Option<u64>,
    pub answered_by: Option<String>,
    pub answers: Vec<QuestionAnswer>,
}

#[verifier::ext_equal]
pub struct QuestionView {
    pub id: Seq<char>,
    pub work_id: Seq<char>,
    pub text: Seq<char>,
    pub answer: Option<Seq<char>>,
    pub asked_seq: u64,
    pub answered_seq: Option<u64>,
    pub answered_by: Option<Seq<char>>,
    pub answers: Seq<QuestionAnswerView>,
}

impl View for Question {
    type V = QuestionView;

    open spec fn view(&self) -> QuestionView {
        QuestionView {
            id: self.id@,
            work_id: self.work_id@,
            text: self.text@,
            answer: views::opt_view(self.answer),
            asked_seq: self.asked_seq,
            answered_seq: self.answered_seq,
            answered_by: views::opt_view(self.answered_by),
            answers: views::views(self.answers@),
        }
    }
}

impl Replica for Question {
    fn replica(&self) -> (copy: Question) {
        Question {
            id: self.id.clone(),
            work_id: self.work_id.clone(),
            text: self.text.clone(),
            answer: opt_replica(&self.answer),
            asked_seq: self.asked_seq,
            answered_seq: self.answered_seq,
            answered_by: opt_replica(&self.answered_by),
            answers: replicas(&self.answers),
        }
    }
}

} // verus!

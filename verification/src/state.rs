//! Questions about a project's state, answered.

use vstd::prelude::*;

use crate::attempt::{Attempt, AttemptState};
use crate::catalog;
use crate::catalog::Key;
use crate::error::{AlderError, Result};
use crate::instant::Instant;
use crate::observation::ObservationKey;
use crate::project::ProjectState;
use crate::question::Question;
use crate::rules;
use crate::sorting::sort;
use crate::text;
use crate::text::{chars_of, has_char, has_white, is_blank, joined, joined3, same_text};
use crate::views;
use crate::work::{CheckDefinition, Work, WorkState};

verus! {

/// Refuses a field that says nothing.
pub fn require_text(field: &str, value: &str) -> (outcome: Result<()>)
    ensures
        text::blank(value@) ==> (outcome matches Err(e) && e@ == rules::empty_field(field@)),
        !text::blank(value@) ==> outcome is Ok,
{
    if is_blank(value) {
        Err(AlderError::validation(joined(field, " cannot be empty")))
    } else {
        Ok(())
    }
}

fn is_name_end(c: char) -> (is: bool)
    ensures
        is == rules::name_end(c),
{
    ('a' <= c && c <= 'z') || ('0' <= c && c <= '9')
}

/// Whether the value is a name: lower-case letters, digits and dashes, with no
/// dash at an end.
pub fn valid_name(value: &str) -> (valid: bool)
    ensures
        valid == rules::is_name(value@),
{
    let chars = chars_of(value);
    if chars.len() == 0 {
        return false;
    }
    let mut index: usize = 0;
    while index < chars.len()
        invariant
            index <= chars@.len(),
            chars@ == value@,
            forall|i: int|
                0 <= i < index ==> rules::name_end(#[trigger] chars@[i]) || chars@[i] == '-',
        decreases chars@.len() - index,
    {
        if !is_name_end(chars[index]) && chars[index] != '-' {
            assert(!(rules::name_end(value@[index as int]) || value@[index as int] == '-'));
            return false;
        }
        index += 1;
    }
    is_name_end(chars[0]) && is_name_end(chars[chars.len() - 1])
}

pub fn validate_observation_key(key: &ObservationKey) -> (outcome: Result<()>)
    ensures
        match rules::key_error(key@) {
            Some(error) => outcome matches Err(e) && e@ == error,
            None => outcome is Ok,
        },
{
    if !valid_name(key.observer.as_str()) {
        return Err(
            AlderError::validation(
                joined3(
                    "observation observer `",
                    key.observer.as_str(),
                    "` is not a valid name",
                ),
            ),
        );
    }
    if !valid_name(key.field.as_str()) {
        return Err(
            AlderError::validation(
                joined3("observation field `", key.field.as_str(), "` is not a valid name"),
            ),
        );
    }
    if let Err(error) = require_text("observation subject", key.subject.as_str()) {
        return Err(error);
    }
    if has_char(key.subject.as_str(), '\0') {
        return Err(
            AlderError::validation("observation subject cannot contain a NUL character".to_owned()),
        );
    }
    Ok(())
}

pub fn validate_check(check: &CheckDefinition) -> (outcome: Result<()>)
    ensures
        match rules::check_error(check@) {
            Some(error) => outcome matches Err(e) && e@ == error,
            None => outcome is Ok,
        },
{
    if let Err(error) = require_text("check key", check.key.as_str()) {
        return Err(error);
    }
    if let Err(error) = require_text("check description", check.description.as_str()) {
        return Err(error);
    }
    if has_white(check.key.as_str()) || has_char(check.key.as_str(), ':') {
        return Err(
            AlderError::validation(
                joined3("check key `", check.key.as_str(), "` contains an invalid character"),
            ),
        );
    }
    Ok(())
}

impl ProjectState {
    /// The attempt that runs at a work item.
    pub fn active_attempt_for(&self, work_id: &str) -> (active: Option<&Attempt>)
        ensures
            match active {
                Some(attempt) => rules::active_attempt(self@, work_id@) == Some(attempt@),
                None => rules::active_attempt(self@, work_id@) is None,
            },
    {
        let len = self.attempts.len();
        let ghost keys = self.attempts.keys();
        let mut index: usize = 0;
        while index < len
            invariant
                index <= len,
                len == keys.len(),
                keys == self.attempts.keys(),
                catalog::lists::<String>(keys, self.attempts@.dom()),
                forall|i: int|
                    0 <= i < index ==> !rules::active_key(self@, work_id@, #[trigger] keys[i]),
            decreases len - index,
        {
            let attempt = self.attempts.value_at(index);
            let ghost key = keys[index as int];
            let running = match attempt.state {
                AttemptState::Starting | AttemptState::Active => true,
                AttemptState::Ended => false,
            };
            if running && same_text(attempt.work_id.as_str(), work_id) {
                proof {
                    assert(rules::active_key(self@, work_id@, key));
                    assert forall|other: Seq<char>| #[trigger]
                        rules::active_key(self@, work_id@, other) implies other == key
                        || text::text_before(key, other) by {
                        assert(keys.to_set().contains(other));
                        let j = choose|j: int| 0 <= j < keys.len() && keys[j] == other;
                        assert(j >= index);
                        if j > index {
                            assert(<String as Key>::before(keys[index as int], keys[j]));
                        }
                    }
                    assert(rules::first_active_key(self@, work_id@, key));
                    let chosen = choose|k: Seq<char>| rules::first_active_key(self@, work_id@, k);
                    if chosen != key {
                        text::text_before_transitive(key, chosen, key);
                        text::text_before_irreflexive(key);
                    }
                }
                return Some(attempt);
            }
            index += 1;
        }
        proof {
            assert forall|k: Seq<char>| !rules::active_key(self@, work_id@, k) by {
                if rules::active_key(self@, work_id@, k) {
                    assert(keys.to_set().contains(k));
                    let j = choose|j: int| 0 <= j < keys.len() && keys[j] == k;
                    assert(!rules::active_key(self@, work_id@, keys[j]));
                }
            }
        }
        None
    }

    /// Whether an attempt may start at the work item.
    pub fn is_ready(&self, work_id: &str) -> (ready: bool)
        ensures
            ready == rules::ready(self@, work_id@),
    {
        match self.work.get(work_id) {
            None => false,
            Some(work) => {
                let open = match work.state {
                    WorkState::Open => true,
                    _ => false,
                };
                if !open || self.active_attempt_for(work_id).is_some() {
                    return false;
                }
                self.all_done(&work.requires)
            },
        }
    }

    /// Whether all the items are there and done.
    fn all_done(&self, items: &Vec<String>) -> (all: bool)
        ensures
            all == rules::all_done(self@, views::views(items@)),
    {
        let ghost ids = views::views(items@);
        let mut index: usize = 0;
        while index < items.len()
            invariant
                index <= items@.len(),
                ids == views::views(items@),
                forall|i: int| 0 <= i < index ==> rules::done(self@, #[trigger] ids[i]),
            decreases items@.len() - index,
        {
            assert(ids[index as int] == items@[index as int]@);
            let done = match self.work.get(items[index].as_str()) {
                Some(work) => match work.state {
                    WorkState::Done => true,
                    _ => false,
                },
                None => false,
            };
            if !done {
                return false;
            }
            index += 1;
        }
        true
    }

    /// The work that an attempt may start at, best first.
    pub fn ready(&self) -> (ready: Vec<&Work>)
        ensures
            views::views(ready@) == rules::ready_work(self@),
    {
        let len = self.work.len();
        let ghost keys = self.work.keys();
        let mut found: Vec<&Work> = Vec::new();
        let mut index: usize = 0;
        assert(keys.take(0) =~= Seq::<Seq<char>>::empty());
        assert(views::views(found@) =~= Seq::empty());
        while index < len
            invariant
                index <= len,
                len == keys.len(),
                keys == self.work.keys(),
                views::views(found@) == rules::ready_among(self@, keys.take(index as int)),
            decreases len - index,
        {
            assert(keys.take(index + 1).drop_last() =~= keys.take(index as int));
            let work = self.work.value_at(index);
            if self.is_ready(work.id.as_str()) {
                let ghost before = found@;
                found.push(work);
                assert(views::views(found@) =~= views::views(before).push(work@));
            }
            index += 1;
        }
        assert(keys.take(index as int) =~= keys);
        sort(found)
    }

    /// The earliest time that blocked work is to be reviewed at.
    pub fn next_review_at(&self) -> (at: Option<Instant>)
        ensures
            match at {
                Some(t) => rules::review_at(self@, t) && forall|u: Instant|
                    rules::review_at(self@, u) ==> !u.earlier(t),
                None => forall|u: Instant| !rules::review_at(self@, u),
            },
    {
        let len = self.work.len();
        let ghost keys = self.work.keys();
        let mut earliest: Option<Instant> = None;
        let mut index: usize = 0;
        while index < len
            invariant
                index <= len,
                len == keys.len(),
                keys == self.work.keys(),
                catalog::lists::<String>(keys, self.work@.dom()),
                earliest matches Some(t) ==> rules::review_at(self@, t),
                forall|i: int|
                    0 <= i < index && (#[trigger] self@.work[keys[i]]).state is Blocked
                        && self@.work[keys[i]].block_until is Some ==> earliest is Some
                        && !self@.work[keys[i]].block_until->0.earlier(earliest->0),
            decreases len - index,
        {
            let work = self.work.value_at(index);
            let ghost key = keys[index as int];
            let blocked = match work.state {
                WorkState::Blocked => true,
                _ => false,
            };
            if blocked {
                if let Some(at) = work.block_until {
                    assert(self@.work[key].block_until == Some(at));
                    assert(rules::review_at(self@, at));
                    let sooner = match earliest {
                        Some(t) => at.is_before(t),
                        None => true,
                    };
                    if sooner {
                        earliest = Some(at);
                    }
                }
            }
            index += 1;
        }
        proof {
            assert forall|u: Instant| rules::review_at(self@, u) implies earliest is Some
                && !u.earlier(earliest->0) by {
                let key = choose|key: Seq<char>|
                    self@.work.contains_key(key) && (#[trigger] self@.work[key]).state is Blocked
                        && self@.work[key].block_until == Some(u);
                assert(keys.to_set().contains(key));
                let j = choose|j: int| 0 <= j < keys.len() && keys[j] == key;
                assert(self@.work[keys[j]].state is Blocked);
            }
        }
        earliest
    }

    /// The closed state that has stranded the question, if any. Nothing is
    /// stored: reopening the work takes the question up again.
    pub fn stranded(&self, question: &Question) -> (state: Option<WorkState>)
        ensures
            state == rules::stranded_by(self@, question@),
    {
        match self.work.get(question.work_id.as_str()) {
            Some(work) => if work.state.is_terminal() {
                Some(work.state)
            } else {
                None
            },
            None => None,
        }
    }

    /// Whether a question about the work item waits for an answer.
    pub fn has_unanswered(&self, work_id: &str) -> (waiting: bool)
        ensures
            waiting == rules::has_unanswered(self@, work_id@),
    {
        let len = self.questions.len();
        let ghost keys = self.questions.keys();
        let mut index: usize = 0;
        while index < len
            invariant
                index <= len,
                len == keys.len(),
                keys == self.questions.keys(),
                catalog::lists::<String>(keys, self.questions@.dom()),
                forall|i: int|
                    0 <= i < index ==> !rules::waits(
                        #[trigger] self@.questions[keys[i]],
                        work_id@,
                    ),
            decreases len - index,
        {
            let question = self.questions.value_at(index);
            if question.answer.is_none() && same_text(question.work_id.as_str(), work_id) {
                assert(rules::waits(self@.questions[keys[index as int]], work_id@));
                return true;
            }
            index += 1;
        }
        proof {
            assert forall|k: Seq<char>| self@.questions.contains_key(k) implies !rules::waits(
                #[trigger] self@.questions[k],
                work_id@,
            ) by {
                assert(keys.to_set().contains(k));
                let j = choose|j: int| 0 <= j < keys.len() && keys[j] == k;
                assert(!rules::waits(self@.questions[keys[j]], work_id@));
            }
        }
        false
    }

    /// The waiting questions about a work item in the order they were asked.
    fn waiting(&self, work_id: &str) -> (found: Vec<&Question>)
        ensures
            views::views(found@) == rules::unanswered(self@, work_id@),
    {
        let len = self.questions.len();
        let ghost keys = self.questions.keys();
        let mut found: Vec<&Question> = Vec::new();
        let mut index: usize = 0;
        assert(keys.take(0) =~= Seq::<Seq<char>>::empty());
        assert(views::views(found@) =~= Seq::empty());
        while index < len
            invariant
                index <= len,
                len == keys.len(),
                keys == self.questions.keys(),
                views::views(found@) == rules::waiting_among(
                    self@,
                    work_id@,
                    keys.take(index as int),
                ),
            decreases len - index,
        {
            assert(keys.take(index + 1).drop_last() =~= keys.take(index as int));
            let question = self.questions.value_at(index);
            if question.answer.is_none() && same_text(question.work_id.as_str(), work_id) {
                let ghost before = found@;
                found.push(question);
                assert(views::views(found@) =~= views::views(before).push(question@));
            }
            index += 1;
        }
        assert(keys.take(index as int) =~= keys);
        sort(found)
    }

    /// The IDs of the waiting questions about a work item in the order they
    /// were asked. Closing the item strands exactly these.
    pub fn unanswered_questions(&self, work_id: &str) -> (ids: Vec<String>)
        ensures
            views::views(ids@) == rules::unanswered_ids(self@, work_id@),
    {
        let found = self.waiting(work_id);
        let ghost all = rules::unanswered(self@, work_id@);
        let mut ids: Vec<String> = Vec::new();
        let mut index: usize = 0;
        while index < found.len()
            invariant
                index <= found@.len(),
                all == views::views(found@),
                ids@.len() == index,
                forall|i: int| 0 <= i < index ==> (#[trigger] ids@[i])@ == all[i].id,
            decreases found@.len() - index,
        {
            assert(all[index as int] == found@[index as int]@);
            ids.push(found[index].id.clone());
            index += 1;
        }
        assert(views::views(ids@) =~= rules::unanswered_ids(self@, work_id@));
        ids
    }
}

} // verus!

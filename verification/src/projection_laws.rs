//! What the tables of the projection tell of a project: all of it, and nothing else.

use vstd::prelude::*;

use crate::attempt::{
    AttemptCheckView, AttemptOutcome, AttemptState, AttemptView, CheckStatus,
};
use crate::catalog;
use crate::change_laws;
use crate::event::{EventView, LoopControlView};
use crate::json::{Json, JsonView};
use crate::laws;
use crate::project::StateView;
use crate::projection;
use crate::projection::{CellView, RowView, Table};
use crate::question::{QuestionAnswerView, QuestionView};
use crate::record_laws;
use crate::selection;
use crate::wire;
use crate::wire::ToJson;
use crate::work::{CheckDefinitionView, WorkState, WorkView};

verus! {

// ---- words ----

pub open spec fn state_word(state: WorkState) -> Seq<char> {
    if state is Open {
        "open"@
    } else if state is Blocked {
        "blocked"@
    } else if state is Done {
        "done"@
    } else {
        "dropped"@
    }
}

pub open spec fn attempt_word(state: AttemptState) -> Seq<char> {
    if state is Starting {
        "starting"@
    } else if state is Active {
        "active"@
    } else {
        "ended"@
    }
}

pub open spec fn outcome_word(outcome: AttemptOutcome) -> Seq<char> {
    if outcome is Succeeded {
        "succeeded"@
    } else if outcome is Failed {
        "failed"@
    } else if outcome is Cancelled {
        "cancelled"@
    } else if outcome is Lost {
        "lost"@
    } else {
        "not_started"@
    }
}

pub open spec fn check_word(status: CheckStatus) -> Seq<char> {
    if status is Pending {
        "pending"@
    } else if status is Satisfied {
        "satisfied"@
    } else {
        "failed"@
    }
}

/// Whether a cell holds the text, or nothing where there is none.
pub open spec fn holds_text(cell: CellView, value: Option<Seq<char>>) -> bool {
    &&& value is Some ==> cell == CellView::Text(value->0)
    &&& value is None ==> cell == CellView::Null
}

/// Whether a cell holds the number, or nothing where there is none.
pub open spec fn holds_number(cell: CellView, value: Option<u64>) -> bool {
    &&& value is Some ==> cell == CellView::Number(value->0)
    &&& value is None ==> cell == CellView::Null
}

/// Whether a document is an object with exactly these members.
pub open spec fn has_members(document: JsonView, members: Map<Seq<char>, JsonView>) -> bool {
    &&& document is Object
    &&& forall|key: Seq<char>| #![trigger members.contains_key(key)]
        if members.contains_key(key) {
            document.member(key) == Some(members[key])
        } else {
            document.member(key) is None
        }
}

// ---- what a row tells, by the columns of its table ----

/// `work_current`: id, title, spec, priority, state, block_reason, block_until, outcome,
/// opened_seq, changed_seq.
pub open spec fn tells_work(cells: Seq<CellView>, work: WorkView) -> bool {
    &&& cells.len() == 10
    &&& cells[0] == CellView::Text(work.id)
    &&& cells[1] == CellView::Text(work.title)
    &&& holds_text(cells[2], work.spec)
    &&& cells[3] == CellView::Signed(work.priority)
    &&& cells[4] == CellView::Text(state_word(work.state))
    &&& holds_text(cells[5], work.block_reason)
    &&& work.block_until is Some ==> cells[6] == CellView::Text(work.block_until->0.shown())
    &&& work.block_until is None ==> cells[6] == CellView::Null
    &&& holds_text(cells[7], work.outcome)
    &&& cells[8] == CellView::Number(work.opened_seq)
    &&& cells[9] == CellView::Number(work.changed_seq)
}

/// `attempts`: id, work_id, state, outcome, tier, handle, metadata, note, started_seq,
/// bound_seq, updated_seq, ended_seq.
pub open spec fn tells_attempt(cells: Seq<CellView>, attempt: AttemptView) -> bool {
    &&& cells.len() == 12
    &&& cells[0] == CellView::Text(attempt.id)
    &&& cells[1] == CellView::Text(attempt.work_id)
    &&& cells[2] == CellView::Text(attempt_word(attempt.state))
    &&& attempt.outcome is Some ==> cells[3] == CellView::Text(outcome_word(attempt.outcome->0))
    &&& attempt.outcome is None ==> cells[3] == CellView::Null
    &&& holds_text(cells[4], attempt.tier)
    &&& holds_text(cells[5], attempt.handle)
    &&& cells[6] is Document && has_members(cells[6]->Document_0, attempt.metadata)
    &&& holds_text(cells[7], attempt.note)
    &&& cells[8] == CellView::Number(attempt.started_seq)
    &&& holds_number(cells[9], attempt.bound_seq)
    &&& cells[10] == CellView::Number(attempt.updated_seq)
    &&& holds_number(cells[11], attempt.ended_seq)
}

/// `attempt_checks`: attempt_id, key, status, evidence, updated_seq.
pub open spec fn tells_verdict(
    cells: Seq<CellView>,
    attempt_id: Seq<char>,
    check: AttemptCheckView,
) -> bool {
    &&& cells.len() == 5
    &&& cells[0] == CellView::Text(attempt_id)
    &&& cells[1] == CellView::Text(check.key)
    &&& cells[2] == CellView::Text(check_word(check.status))
    &&& holds_text(cells[3], check.evidence)
    &&& holds_number(cells[4], check.updated_seq)
}

/// `questions`: id, work_id, text, answer, asked_seq, answered_seq, answered_by.
pub open spec fn tells_question(cells: Seq<CellView>, question: QuestionView) -> bool {
    &&& cells.len() == 7
    &&& cells[0] == CellView::Text(question.id)
    &&& cells[1] == CellView::Text(question.work_id)
    &&& cells[2] == CellView::Text(question.text)
    &&& holds_text(cells[3], question.answer)
    &&& cells[4] == CellView::Number(question.asked_seq)
    &&& holds_number(cells[5], question.answered_seq)
    &&& holds_text(cells[6], question.answered_by)
}

/// `loop_control`: id, paused, pause_reason, engine, rotate_requested_seq,
/// nudge_requested_seq.
pub open spec fn tells_loop(cells: Seq<CellView>, control: LoopControlView) -> bool {
    &&& cells.len() == 6
    &&& cells[0] == CellView::Number(0)
    &&& control.paused ==> cells[1] == CellView::Number(1)
    &&& !control.paused ==> cells[1] == CellView::Number(0)
    &&& holds_text(cells[2], control.pause_reason)
    &&& holds_text(cells[3], control.engine)
    &&& holds_number(cells[4], control.rotate_requested_seq)
    &&& holds_number(cells[5], control.nudge_requested_seq)
}

/// A row of two or more texts.
pub open spec fn texts_row(table: Table, texts: Seq<Seq<char>>) -> RowView {
    RowView { table, cells: Seq::new(texts.len(), |i: int| CellView::Text(texts[i])) }
}

/// Whether a row tells something that holds of the project.
pub open spec fn holds_of(s: StateView, row: RowView) -> bool {
    match row.table {
        Table::Events => false,
        Table::WorkCurrent => exists|k: Seq<char>|
            s.work.contains_key(k) && tells_work(row.cells, #[trigger] s.work[k]),
        Table::Dependencies => exists|k: Seq<char>, r: Seq<char>|
            s.work.contains_key(k) && #[trigger] s.work[k].requires.contains(r) && row
                == texts_row(Table::Dependencies, seq![k, r]),
        Table::WorkChecks => exists|k: Seq<char>, c: CheckDefinitionView|
            s.work.contains_key(k) && #[trigger] s.work[k].checks.contains(c) && row == texts_row(
                Table::WorkChecks,
                seq![k, c.key, c.description],
            ),
        Table::Attempts => exists|k: Seq<char>|
            s.attempts.contains_key(k) && tells_attempt(row.cells, #[trigger] s.attempts[k]),
        Table::AttemptChecks => exists|k: Seq<char>, key: Seq<char>|
            s.attempts.contains_key(k) && s.attempts[k].checks.contains_key(key)
                && tells_verdict(row.cells, k, #[trigger] s.attempts[k].checks[key]),
        Table::Questions => exists|k: Seq<char>|
            s.questions.contains_key(k) && tells_question(row.cells, #[trigger] s.questions[k]),
        Table::QuestionAnswers => exists|k: Seq<char>, i: int|
            s.questions.contains_key(k) && 0 <= i < s.questions[k].answers.len()
                && row.cells =~= seq![
                CellView::Text(k),
                CellView::Number(s.questions[k].answers[i].seq),
                CellView::Text(s.questions[k].answers[i].answer),
                CellView::Text((#[trigger] s.questions[k].answers[i]).actor),
            ],
        Table::LoopControl => tells_loop(row.cells, s.loop_control),
    }
}

/// Whether a row of the table tells so.
pub open spec fn stands(
    rows: Seq<RowView>,
    table: Table,
    tells: spec_fn(Seq<CellView>) -> bool,
) -> bool {
    exists|row: RowView| #[trigger] rows.contains(row) && row.table == table && tells(row.cells)
}

// ---- proofs ----

proof fn work_rows_hold(items: Seq<WorkView>, row: RowView)
    ensures
        projection::all_work_rows(items).contains(row) <==> exists|i: int|
            0 <= i < items.len() && projection::rows_of_work(#[trigger] items[i]).contains(row),
    decreases items.len(),
{
    if items.len() > 0 {
        let front = items.drop_last();
        work_rows_hold(front, row);
        change_laws::joined_holds(
            projection::all_work_rows(front),
            projection::rows_of_work(items.last()),
            row,
        );
        if projection::all_work_rows(front).contains(row) {
            let i = choose|i: int|
                0 <= i < front.len() && projection::rows_of_work(#[trigger] front[i]).contains(row);
            assert(projection::rows_of_work(items[i]).contains(row));
        }
        if projection::rows_of_work(items.last()).contains(row) {
            assert(projection::rows_of_work(items[items.len() - 1]).contains(row));
        }
        if exists|i: int|
            0 <= i < items.len() && projection::rows_of_work(#[trigger] items[i]).contains(row) {
            let i = choose|i: int|
                0 <= i < items.len() && projection::rows_of_work(#[trigger] items[i]).contains(row);
            if i < front.len() {
                assert(projection::rows_of_work(front[i]).contains(row));
            }
        }
    }
}

proof fn attempt_rows_hold(items: Seq<AttemptView>, row: RowView)
    ensures
        projection::all_attempt_rows(items).contains(row) <==> exists|i: int|
            0 <= i < items.len() && projection::rows_of_attempt(#[trigger] items[i]).contains(row),
    decreases items.len(),
{
    if items.len() > 0 {
        let front = items.drop_last();
        attempt_rows_hold(front, row);
        change_laws::joined_holds(
            projection::all_attempt_rows(front),
            projection::rows_of_attempt(items.last()),
            row,
        );
        if projection::all_attempt_rows(front).contains(row) {
            let i = choose|i: int|
                0 <= i < front.len() && projection::rows_of_attempt(#[trigger] front[i]).contains(
                    row,
                );
            assert(projection::rows_of_attempt(items[i]).contains(row));
        }
        if projection::rows_of_attempt(items.last()).contains(row) {
            assert(projection::rows_of_attempt(items[items.len() - 1]).contains(row));
        }
        if exists|i: int|
            0 <= i < items.len() && projection::rows_of_attempt(#[trigger] items[i]).contains(row) {
            let i = choose|i: int|
                0 <= i < items.len() && projection::rows_of_attempt(#[trigger] items[i]).contains(
                    row,
                );
            if i < front.len() {
                assert(projection::rows_of_attempt(front[i]).contains(row));
            }
        }
    }
}

proof fn question_rows_hold(items: Seq<QuestionView>, row: RowView)
    ensures
        projection::all_question_rows(items).contains(row) <==> exists|i: int|
            0 <= i < items.len() && projection::rows_of_question(#[trigger] items[i]).contains(row),
    decreases items.len(),
{
    if items.len() > 0 {
        let front = items.drop_last();
        question_rows_hold(front, row);
        change_laws::joined_holds(
            projection::all_question_rows(front),
            projection::rows_of_question(items.last()),
            row,
        );
        if projection::all_question_rows(front).contains(row) {
            let i = choose|i: int|
                0 <= i < front.len() && projection::rows_of_question(#[trigger] front[i]).contains(
                    row,
                );
            assert(projection::rows_of_question(items[i]).contains(row));
        }
        if projection::rows_of_question(items.last()).contains(row) {
            assert(projection::rows_of_question(items[items.len() - 1]).contains(row));
        }
        if exists|i: int|
            0 <= i < items.len() && projection::rows_of_question(#[trigger] items[i]).contains(
                row,
            ) {
            let i = choose|i: int|
                0 <= i < items.len() && projection::rows_of_question(#[trigger] items[i]).contains(
                    row,
                );
            if i < front.len() {
                assert(projection::rows_of_question(front[i]).contains(row));
            }
        }
    }
}

/// Whether an entry has the value.
pub open spec fn has_value<T>(entries: Map<Seq<char>, T>, value: T) -> bool {
    exists|k: Seq<char>| #[trigger] entries.contains_key(k) && entries[k] == value
}

/// The values of a catalog are its entries' values.
pub proof fn values_are_the_entries<T>(entries: Map<Seq<char>, T>)
    requires
        entries.dom().finite(),
    ensures
        forall|value: T| #[trigger]
            selection::values::<String, T>(entries).contains(value) <==> has_value(entries, value),
{
    let keys = catalog::listing::<String>(entries.dom());
    let all = selection::values::<String, T>(entries);
    catalog::listing_exists::<String>(entries.dom());
    assert forall|value: T| #[trigger] all.contains(value) <==> has_value(entries, value) by {
        if all.contains(value) {
            let i = choose|i: int| 0 <= i < all.len() && all[i] == value;
            assert(keys.to_set().contains(keys[i]));
            assert(entries.contains_key(keys[i]) && entries[keys[i]] == value);
        }
        if has_value(entries, value) {
            let k = choose|k: Seq<char>| #[trigger]
                entries.contains_key(k) && entries[k] == value;
            assert(keys.to_set().contains(k));
            let i = choose|i: int| 0 <= i < keys.len() && keys[i] == k;
            assert(all[i] == value);
        }
    }
}

proof fn work_row_tells(work: WorkView)
    ensures
        tells_work(projection::work_row(work).cells, work),
        projection::work_row(work).table == Table::WorkCurrent,
{
}

/// A map is written as an object with a member for each of its entries, and no other.
pub proof fn maps_have_members<T: ToJson>(entries: Map<Seq<char>, T::V>)
    requires
        entries.dom().finite(),
    ensures
        wire::map_json::<T>(entries) is Object,
        forall|key: Seq<char>| #![trigger entries.contains_key(key)]
            if entries.contains_key(key) {
                wire::map_json::<T>(entries).member(key) == Some(T::json(entries[key]))
            } else {
                wire::map_json::<T>(entries).member(key) is None
            },
{
    let keys = catalog::listing::<String>(entries.dom());
    catalog::listing_exists::<String>(entries.dom());
    record_laws::ascending_texts_differ(keys);
    let members = wire::entries_of::<T>(entries, keys);
    assert forall|key: Seq<char>| #![trigger entries.contains_key(key)]
        if entries.contains_key(key) {
            wire::map_json::<T>(entries).member(key) == Some(T::json(entries[key]))
        } else {
            wire::map_json::<T>(entries).member(key) is None
        } by {
        if entries.contains_key(key) {
            assert(keys.to_set().contains(key));
            let i = choose|i: int| 0 <= i < keys.len() && keys[i] == key;
            wire::member_found(members, i);
        } else {
            assert forall|i: int| 0 <= i < members.len() implies (#[trigger] members[i]).0 != key by {
                assert(keys.to_set().contains(keys[i]));
            }
            wire::member_missing(members, key);
        }
    }
}

proof fn attempt_row_tells(attempt: AttemptView)
    requires
        attempt.metadata.dom().finite(),
    ensures
        tells_attempt(projection::attempt_row(attempt).cells, attempt),
        projection::attempt_row(attempt).table == Table::Attempts,
{
    maps_have_members::<Json>(attempt.metadata);
}

proof fn rows_of_work_are(work: WorkView, row: RowView)
    ensures
        projection::rows_of_work(work).contains(row) <==> {
            ||| row == projection::work_row(work)
            ||| exists|r: Seq<char>| #[trigger]
                work.requires.contains(r) && row == texts_row(
                    Table::Dependencies,
                    seq![work.id, r],
                )
            ||| exists|c: CheckDefinitionView| #[trigger]
                work.checks.contains(c) && row == texts_row(
                    Table::WorkChecks,
                    seq![work.id, c.key, c.description],
                )
        },
{
    let first = seq![projection::work_row(work)];
    let needs = work.requires.map_values(
        |required: Seq<char>| projection::dependency_row(work.id, required),
    );
    let checks = work.checks.map_values(
        |check: CheckDefinitionView| projection::check_row(work.id, check),
    );
    change_laws::joined_holds(first + needs, checks, row);
    change_laws::joined_holds(first, needs, row);
    assert forall|r: Seq<char>| #[trigger] projection::dependency_row(work.id, r) == texts_row(
        Table::Dependencies,
        seq![work.id, r],
    ) by {
        assert(projection::dependency_row(work.id, r).cells =~= texts_row(
            Table::Dependencies,
            seq![work.id, r],
        ).cells);
    }
    assert forall|c: CheckDefinitionView| #[trigger] projection::check_row(work.id, c) == texts_row(
        Table::WorkChecks,
        seq![work.id, c.key, c.description],
    ) by {
        assert(projection::check_row(work.id, c).cells =~= texts_row(
            Table::WorkChecks,
            seq![work.id, c.key, c.description],
        ).cells);
    }
    if row == projection::work_row(work) {
        assert(first[0] == row);
    }
    if needs.contains(row) {
        let i = choose|i: int| 0 <= i < needs.len() && needs[i] == row;
        assert(work.requires.contains(work.requires[i]));
        assert(row == projection::dependency_row(work.id, work.requires[i]));
    }
    if checks.contains(row) {
        let i = choose|i: int| 0 <= i < checks.len() && checks[i] == row;
        assert(work.checks.contains(work.checks[i]));
        assert(row == projection::check_row(work.id, work.checks[i]));
    }
    if exists|r: Seq<char>| #[trigger]
        work.requires.contains(r) && row == texts_row(Table::Dependencies, seq![work.id, r]) {
        let r = choose|r: Seq<char>| #[trigger]
            work.requires.contains(r) && row == texts_row(Table::Dependencies, seq![work.id, r]);
        let i = choose|i: int| 0 <= i < work.requires.len() && work.requires[i] == r;
        assert(row == projection::dependency_row(work.id, r));
        assert(needs[i] == row);
    }
    if exists|c: CheckDefinitionView| #[trigger]
        work.checks.contains(c) && row == texts_row(
            Table::WorkChecks,
            seq![work.id, c.key, c.description],
        ) {
        let c = choose|c: CheckDefinitionView| #[trigger]
            work.checks.contains(c) && row == texts_row(
                Table::WorkChecks,
                seq![work.id, c.key, c.description],
            );
        let i = choose|i: int| 0 <= i < work.checks.len() && work.checks[i] == c;
        assert(row == projection::check_row(work.id, c));
        assert(checks[i] == row);
    }
}

/// An attempt has finitely many checks, and finitely much metadata.
pub open spec fn finite_attempts(s: StateView) -> bool {
    forall|k: Seq<char>|
        s.attempts.contains_key(k) ==> (#[trigger] s.attempts[k]).metadata.dom().finite()
            && s.attempts[k].checks.dom().finite()
}

proof fn rows_split(s: StateView, row: RowView)
    ensures
        projection::rows_of(s).contains(row) <==> {
            ||| projection::all_work_rows(selection::values::<String, WorkView>(s.work)).contains(
                row,
            )
            ||| projection::all_attempt_rows(
                selection::values::<String, AttemptView>(s.attempts),
            ).contains(row)
            ||| projection::all_question_rows(
                selection::values::<String, QuestionView>(s.questions),
            ).contains(row)
            ||| row == projection::loop_row(s.loop_control)
        },
{
    let work = projection::all_work_rows(selection::values::<String, WorkView>(s.work));
    let attempts = projection::all_attempt_rows(
        selection::values::<String, AttemptView>(s.attempts),
    );
    let questions = projection::all_question_rows(
        selection::values::<String, QuestionView>(s.questions),
    );
    let control = seq![projection::loop_row(s.loop_control)];
    change_laws::joined_holds(work + attempts + questions, control, row);
    change_laws::joined_holds(work + attempts, questions, row);
    change_laws::joined_holds(work, attempts, row);
    if row == projection::loop_row(s.loop_control) {
        assert(control[0] == row);
    }
}

/// Every row of the projection tells something that holds of the project.
pub proof fn rows_tell_nothing_else(s: StateView, row: RowView)
    requires
        laws::sound(s),
        finite_attempts(s),
        projection::rows_of(s).contains(row),
    ensures
        holds_of(s, row),
{
    rows_split(s, row);
    let work = selection::values::<String, WorkView>(s.work);
    let attempts = selection::values::<String, AttemptView>(s.attempts);
    let questions = selection::values::<String, QuestionView>(s.questions);
    values_are_the_entries(s.work);
    values_are_the_entries(s.attempts);
    values_are_the_entries(s.questions);
    if projection::all_work_rows(work).contains(row) {
        work_rows_hold(work, row);
        let i = choose|i: int|
            0 <= i < work.len() && projection::rows_of_work(#[trigger] work[i]).contains(row);
        assert(work.contains(work[i]));
        assert(has_value(s.work, work[i]));
        let k = choose|k: Seq<char>| #[trigger] s.work.contains_key(k) && s.work[k] == work[i];
        assert(s.work[k].id == k);
        rows_of_work_are(s.work[k], row);
        work_row_tells(s.work[k]);
        if row == projection::work_row(s.work[k]) {
            assert(tells_work(row.cells, s.work[k]));
        }
    } else if projection::all_attempt_rows(attempts).contains(row) {
        attempt_rows_hold(attempts, row);
        let i = choose|i: int|
            0 <= i < attempts.len() && projection::rows_of_attempt(
                #[trigger] attempts[i],
            ).contains(row);
        assert(attempts.contains(attempts[i]));
        assert(has_value(s.attempts, attempts[i]));
        let k = choose|k: Seq<char>| #[trigger]
            s.attempts.contains_key(k) && s.attempts[k] == attempts[i];
        let attempt = s.attempts[k];
        assert(attempt.id == k);
        attempt_row_tells(attempt);
        let checks = selection::values::<String, AttemptCheckView>(attempt.checks);
        let rest = checks.map_values(
            |check: AttemptCheckView| projection::attempt_check_row(attempt.id, check),
        );
        change_laws::joined_holds(seq![projection::attempt_row(attempt)], rest, row);
        if rest.contains(row) {
            let n = choose|n: int| 0 <= n < rest.len() && rest[n] == row;
            let keys = catalog::listing::<String>(attempt.checks.dom());
            catalog::listing_exists::<String>(attempt.checks.dom());
            assert(keys.to_set().contains(keys[n]));
            assert(checks[n] == attempt.checks[keys[n]]);
            assert(tells_verdict(row.cells, k, s.attempts[k].checks[keys[n]]));
        } else {
            assert(seq![projection::attempt_row(attempt)][0] == projection::attempt_row(attempt));
            assert(tells_attempt(row.cells, s.attempts[k]));
        }
    } else if projection::all_question_rows(questions).contains(row) {
        question_rows_hold(questions, row);
        let i = choose|i: int|
            0 <= i < questions.len() && projection::rows_of_question(
                #[trigger] questions[i],
            ).contains(row);
        assert(questions.contains(questions[i]));
        assert(has_value(s.questions, questions[i]));
        let k = choose|k: Seq<char>| #[trigger]
            s.questions.contains_key(k) && s.questions[k] == questions[i];
        let question = s.questions[k];
        assert(question.id == k);
        let rest = question.answers.map_values(
            |answer: QuestionAnswerView| projection::answer_row(question.id, answer),
        );
        change_laws::joined_holds(seq![projection::question_row(question)], rest, row);
        if rest.contains(row) {
            let n = choose|n: int| 0 <= n < rest.len() && rest[n] == row;
            assert(rest[n] == projection::answer_row(k, s.questions[k].answers[n]));
        } else {
            assert(tells_question(row.cells, s.questions[k]));
        }
    }
}

/// The projection loses nothing: every item with all its fields, every requirement, every
/// check, every attempt, verdict, question and answer, and the state of the loop stands
/// in a row of its table.
pub proof fn rows_tell_all(s: StateView)
    requires
        laws::sound(s),
        finite_attempts(s),
    ensures
        ({
            let rows = projection::rows_of(s);
            &&& forall|k: Seq<char>|
                s.work.contains_key(k) ==> stands(
                    rows,
                    Table::WorkCurrent,
                    |cells: Seq<CellView>| tells_work(cells, #[trigger] s.work[k]),
                )
            &&& forall|k: Seq<char>, r: Seq<char>|
                s.work.contains_key(k) && #[trigger] s.work[k].requires.contains(r)
                    ==> rows.contains(texts_row(Table::Dependencies, seq![k, r]))
            &&& forall|k: Seq<char>, c: CheckDefinitionView|
                s.work.contains_key(k) && #[trigger] s.work[k].checks.contains(c)
                    ==> rows.contains(
                    texts_row(Table::WorkChecks, seq![k, c.key, c.description]),
                )
            &&& forall|k: Seq<char>|
                s.attempts.contains_key(k) ==> stands(
                    rows,
                    Table::Attempts,
                    |cells: Seq<CellView>| tells_attempt(cells, #[trigger] s.attempts[k]),
                )
            &&& forall|k: Seq<char>, key: Seq<char>|
                s.attempts.contains_key(k) && s.attempts[k].checks.contains_key(key)
                    ==> stands(
                    rows,
                    Table::AttemptChecks,
                    |cells: Seq<CellView>|
                        tells_verdict(cells, k, #[trigger] s.attempts[k].checks[key]),
                )
            &&& forall|k: Seq<char>|
                s.questions.contains_key(k) ==> stands(
                    rows,
                    Table::Questions,
                    |cells: Seq<CellView>| tells_question(cells, #[trigger] s.questions[k]),
                )
            &&& forall|k: Seq<char>, i: int|
                s.questions.contains_key(k) && 0 <= i < s.questions[k].answers.len()
                    ==> rows.contains(
                    RowView {
                        table: Table::QuestionAnswers,
                        cells: seq![
                            CellView::Text(k),
                            CellView::Number(s.questions[k].answers[i].seq),
                            CellView::Text(s.questions[k].answers[i].answer),
                            CellView::Text((#[trigger] s.questions[k].answers[i]).actor),
                        ],
                    },
                )
            &&& stands(
                rows,
                Table::LoopControl,
                |cells: Seq<CellView>| tells_loop(cells, s.loop_control),
            )
        }),
{
    let rows = projection::rows_of(s);
    values_are_the_entries(s.work);
    values_are_the_entries(s.attempts);
    values_are_the_entries(s.questions);
    let work = selection::values::<String, WorkView>(s.work);
    let attempts = selection::values::<String, AttemptView>(s.attempts);
    let questions = selection::values::<String, QuestionView>(s.questions);
    assert forall|k: Seq<char>, row: RowView|
        s.work.contains_key(k) && #[trigger] projection::rows_of_work(s.work[k]).contains(
            row,
        ) implies rows.contains(row) by {
        assert(has_value(s.work, s.work[k]));
        assert(work.contains(s.work[k]));
        let i = choose|i: int| 0 <= i < work.len() && work[i] == s.work[k];
        assert(projection::rows_of_work(work[i]).contains(row));
        work_rows_hold(work, row);
        rows_split(s, row);
    }
    assert forall|k: Seq<char>, row: RowView|
        s.attempts.contains_key(k) && #[trigger] projection::rows_of_attempt(
            s.attempts[k],
        ).contains(row) implies rows.contains(row) by {
        assert(has_value(s.attempts, s.attempts[k]));
        assert(attempts.contains(s.attempts[k]));
        let i = choose|i: int| 0 <= i < attempts.len() && attempts[i] == s.attempts[k];
        assert(projection::rows_of_attempt(attempts[i]).contains(row));
        attempt_rows_hold(attempts, row);
        rows_split(s, row);
    }
    assert forall|k: Seq<char>, row: RowView|
        s.questions.contains_key(k) && #[trigger] projection::rows_of_question(
            s.questions[k],
        ).contains(row) implies rows.contains(row) by {
        assert(has_value(s.questions, s.questions[k]));
        assert(questions.contains(s.questions[k]));
        let i = choose|i: int| 0 <= i < questions.len() && questions[i] == s.questions[k];
        assert(projection::rows_of_question(questions[i]).contains(row));
        question_rows_hold(questions, row);
        rows_split(s, row);
    }
    assert forall|k: Seq<char>| s.work.contains_key(k) implies stands(
                    rows,
                    Table::WorkCurrent,
                    |cells: Seq<CellView>| tells_work(cells, #[trigger] s.work[k]),
                ) by {
        let row = projection::work_row(s.work[k]);
        rows_of_work_are(s.work[k], row);
        work_row_tells(s.work[k]);
        assert(rows.contains(row));
    }
    assert forall|k: Seq<char>, r: Seq<char>|
        s.work.contains_key(k) && #[trigger] s.work[k].requires.contains(r) implies rows.contains(
        texts_row(Table::Dependencies, seq![k, r]),
    ) by {
        assert(s.work[k].id == k);
        let row = texts_row(Table::Dependencies, seq![k, r]);
        rows_of_work_are(s.work[k], row);
        assert(projection::rows_of_work(s.work[k]).contains(row));
    }
    assert forall|k: Seq<char>, c: CheckDefinitionView|
        s.work.contains_key(k) && #[trigger] s.work[k].checks.contains(c) implies rows.contains(
        texts_row(Table::WorkChecks, seq![k, c.key, c.description]),
    ) by {
        assert(s.work[k].id == k);
        let row = texts_row(Table::WorkChecks, seq![k, c.key, c.description]);
        rows_of_work_are(s.work[k], row);
        assert(projection::rows_of_work(s.work[k]).contains(row));
    }
    assert forall|k: Seq<char>| s.attempts.contains_key(k) implies stands(
                    rows,
                    Table::Attempts,
                    |cells: Seq<CellView>| tells_attempt(cells, #[trigger] s.attempts[k]),
                ) by {
        let row = projection::attempt_row(s.attempts[k]);
        attempt_row_tells(s.attempts[k]);
        assert(projection::rows_of_attempt(s.attempts[k])[0] == row);
        assert(projection::rows_of_attempt(s.attempts[k]).contains(row));
        assert(rows.contains(row));
    }
    assert forall|k: Seq<char>, key: Seq<char>|
        s.attempts.contains_key(k) && s.attempts[k].checks.contains_key(key) implies stands(
                    rows,
                    Table::AttemptChecks,
                    |cells: Seq<CellView>|
                        tells_verdict(cells, k, #[trigger] s.attempts[k].checks[key]),
                ) by {
        let attempt = s.attempts[k];
        assert(attempt.id == k);
        values_are_the_entries(attempt.checks);
        let checks = selection::values::<String, AttemptCheckView>(attempt.checks);
        assert(has_value(attempt.checks, attempt.checks[key]));
        assert(checks.contains(attempt.checks[key]));
        let n = choose|n: int| 0 <= n < checks.len() && checks[n] == attempt.checks[key];
        let row = projection::attempt_check_row(k, attempt.checks[key]);
        assert(projection::rows_of_attempt(attempt)[n + 1] == row);
        assert(projection::rows_of_attempt(s.attempts[k]).contains(row));
        assert(rows.contains(row));
        assert(tells_verdict(row.cells, k, s.attempts[k].checks[key]));
    }
    assert forall|k: Seq<char>| s.questions.contains_key(k) implies stands(
                    rows,
                    Table::Questions,
                    |cells: Seq<CellView>| tells_question(cells, #[trigger] s.questions[k]),
                ) by {
        let row = projection::question_row(s.questions[k]);
        assert(projection::rows_of_question(s.questions[k])[0] == row);
        assert(projection::rows_of_question(s.questions[k]).contains(row));
        assert(rows.contains(row));
    }
    assert forall|k: Seq<char>, i: int|
        s.questions.contains_key(k) && 0 <= i < s.questions[k].answers.len() implies rows.contains(
        RowView {
            table: Table::QuestionAnswers,
            cells: seq![
                CellView::Text(k),
                CellView::Number(s.questions[k].answers[i].seq),
                CellView::Text(s.questions[k].answers[i].answer),
                CellView::Text((#[trigger] s.questions[k].answers[i]).actor),
            ],
        },
    ) by {
        assert(s.questions[k].id == k);
        let row = projection::answer_row(k, s.questions[k].answers[i]);
        assert(projection::rows_of_question(s.questions[k])[i + 1] == row);
        assert(projection::rows_of_question(s.questions[k]).contains(row));
    }
    let row = projection::loop_row(s.loop_control);
    rows_split(s, row);
    assert(rows.contains(row) && tells_loop(row.cells, s.loop_control));
}

/// The row of an event has its sequence, its ID, its time, its actor, its type and its
/// body, in the order of the columns seq, id, at, actor, type, body_json.
pub proof fn event_rows_tell_the_events(event: EventView)
    ensures
        ({
            let row = projection::event_row(event);
            &&& row.table == Table::Events
            &&& row.cells.len() == 6
            &&& row.cells[0] == CellView::Number(event.seq)
            &&& row.cells[1] == CellView::Text(event.id)
            &&& row.cells[2] == CellView::Text(event.at.shown())
            &&& row.cells[3] == CellView::Text(event.actor)
            &&& row.cells[4] == CellView::Text(event.payload.event_type())
            &&& row.cells[5] is Document
            &&& row.cells[5]->Document_0.member("body"@) == Some(event.payload.body())
            &&& row.cells[5]->Document_0.member("type"@) == Some(
                JsonView::Text(event.payload.event_type()),
            )
        }),
{
    let empty = crate::json::empty_object();
    let first = empty.with("body"@, event.payload.body());
    reveal_strlit("body");
    reveal_strlit("type");
    assert("body"@[0] != "type"@[0]);
    crate::json::member_of_extended(empty, "body"@, event.payload.body(), "body"@);
    crate::json::member_of_extended(empty, "body"@, event.payload.body(), "type"@);
    crate::json::member_of_extended(
        first,
        "type"@,
        JsonView::Text(event.payload.event_type()),
        "body"@,
    );
    crate::json::member_of_extended(
        first,
        "type"@,
        JsonView::Text(event.payload.event_type()),
        "type"@,
    );
}

/// A projection holds against the project exactly if it stands at the head and has as many
/// rows of work and of attempts as there are.
pub proof fn verdicts_rest_on_head_and_counts(
    represented: Option<crate::store::HeadView>,
    head: crate::store::HeadView,
    work_rows: u64,
    attempt_rows: u64,
    s: StateView,
)
    ensures
        projection::verdict(represented, head, work_rows, attempt_rows, s) is Ok <==> represented
            is Some && represented->0.seq == head.seq && represented->0.revision == head.revision
            && work_rows == s.work.dom().len() && attempt_rows == s.attempts.dom().len(),
        projection::verdict(represented, head, work_rows, attempt_rows, s) is Err
            ==> projection::verdict(represented, head, work_rows, attempt_rows, s)->Err_0.code
            == "projection_mismatch"@,
{
}

/// A dependency has the item in the column `work_id` and what it requires in the column
/// `required_id`: the pair is a row exactly if the item requires the other.
pub proof fn dependencies_are_what_is_required(s: StateView, w: Seq<char>, r: Seq<char>)
    requires
        laws::sound(s),
        finite_attempts(s),
    ensures
        projection::rows_of(s).contains(
            RowView {
                table: Table::Dependencies,
                cells: seq![CellView::Text(w), CellView::Text(r)],
            },
        ) <==> s.work.contains_key(w) && s.work[w].requires.contains(r),
{
    let row = RowView {
        table: Table::Dependencies,
        cells: seq![CellView::Text(w), CellView::Text(r)],
    };
    assert(row.cells =~= texts_row(Table::Dependencies, seq![w, r]).cells);
    rows_tell_all(s);
    if projection::rows_of(s).contains(row) {
        rows_tell_nothing_else(s, row);
        let (k, x) = choose|k: Seq<char>, x: Seq<char>|
            s.work.contains_key(k) && #[trigger] s.work[k].requires.contains(x) && row
                == texts_row(Table::Dependencies, seq![k, x]);
        let other = texts_row(Table::Dependencies, seq![k, x]);
        assert(row.cells[0] == other.cells[0] && row.cells[1] == other.cells[1]);
        assert(other.cells[0] == CellView::Text(k) && other.cells[1] == CellView::Text(x));
    }
}

} // verus!

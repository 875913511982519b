//! The projection: the project as rows of tables, so that it can be queried.

use vstd::prelude::*;

use crate::attempt::{Attempt, AttemptCheckView, AttemptView};
use crate::catalog;
use crate::error;
use crate::error::{AlderError, ErrorView, Result};
use crate::event::{Event, EventView, LoopControl, LoopControlView};
use crate::json;
use crate::json::{Json, JsonView};
use crate::project::{ProjectState, StateView};
use crate::question::{Question, QuestionAnswerView, QuestionView};
use crate::selection;
use crate::selection::values_of;
use crate::store;
use crate::store::{Head, HeadView};
use crate::text;
use crate::text::{chars_of, read_number, text_between};
use crate::views;
use crate::wire;
use crate::wire::map_to_json;
use crate::work::{CheckDefinitionView, Work, WorkView};

verus! {

/// Where the projection is kept.
#[derive(Debug)]
pub struct Projection {
    pub path: String,
}

impl Projection {
    pub fn new(path: String) -> (projection: Projection)
        ensures
            projection.path == path,
    {
        Projection { path }
    }

    pub fn path(&self) -> (path: &str)
        ensures
            path@ == self.path@,
    {
        self.path.as_str()
    }
}

// ---- cells ----

/// A value in a row. A document is kept as its JSON text.
#[derive(Debug, PartialEq, Eq)]
pub enum Cell {
    Null,
    Number(u64),
    Signed(i64),
    Text(String),
    Document(Json),
}

#[verifier::ext_equal]
pub enum CellView {
    Null,
    Number(u64),
    Signed(i64),
    Text(Seq<char>),
    Document(JsonView),
}

impl View for Cell {
    type V = CellView;

    open spec fn view(&self) -> CellView {
        match self {
            Cell::Null => CellView::Null,
            Cell::Number(n) => CellView::Number(*n),
            Cell::Signed(n) => CellView::Signed(*n),
            Cell::Text(content) => CellView::Text(content@),
            Cell::Document(json) => CellView::Document(json@),
        }
    }
}

/// The tables of the projection.
#[derive(Debug, Clone, Copy, PartialEq, Eq, Structural)]
pub enum Table {
    Events,
    WorkCurrent,
    Dependencies,
    WorkChecks,
    Attempts,
    AttemptChecks,
    Questions,
    QuestionAnswers,
    LoopControl,
}

/// A row of one of the tables.
#[derive(Debug)]
pub struct Row {
    pub table: Table,
    pub cells: Vec<Cell>,
}

#[verifier::ext_equal]
pub struct RowView {
    pub table: Table,
    pub cells: Seq<CellView>,
}

impl View for Row {
    type V = RowView;

    open spec fn view(&self) -> RowView {
        RowView { table: self.table, cells: views::views(self.cells@) }
    }
}

pub open spec fn text_cell(value: Option<Seq<char>>) -> CellView {
    match value {
        Some(content) => CellView::Text(content),
        None => CellView::Null,
    }
}

pub open spec fn number_cell(value: Option<u64>) -> CellView {
    match value {
        Some(n) => CellView::Number(n),
        None => CellView::Null,
    }
}

fn cell_of_text(value: &Option<String>) -> (cell: Cell)
    ensures
        cell@ == text_cell(views::opt_view(*value)),
{
    match value {
        Some(content) => Cell::Text(content.clone()),
        None => Cell::Null,
    }
}

fn cell_of_number(value: Option<u64>) -> (cell: Cell)
    ensures
        cell@ == number_cell(value),
{
    match value {
        Some(n) => Cell::Number(n),
        None => Cell::Null,
    }
}

// ---- rows ----

pub open spec fn event_row(event: EventView) -> RowView {
    RowView {
        table: Table::Events,
        cells: seq![
            CellView::Number(event.seq),
            CellView::Text(event.id),
            CellView::Text(event.at.shown()),
            CellView::Text(event.actor),
            CellView::Text(event.payload.event_type()),
            CellView::Document(
                json::empty_object().with("body"@, event.payload.body()).with(
                    "type"@,
                    JsonView::Text(event.payload.event_type()),
                ),
            ),
        ],
    }
}

/// A row for each event.
pub fn event_rows(events: &Vec<Event>) -> (rows: Vec<Row>)
    ensures
        views::views(rows@) == views::views(events@).map_values(|e: EventView| event_row(e)),
{
    let ghost told = views::views(events@).map_values(|e: EventView| event_row(e));
    let mut rows: Vec<Row> = Vec::new();
    let mut index: usize = 0;
    while index < events.len()
        invariant
            index <= events@.len(),
            rows@.len() == index,
            told == views::views(events@).map_values(|e: EventView| event_row(e)),
            forall|i: int| 0 <= i < index ==> (#[trigger] rows@[i])@ == told[i],
        decreases events@.len() - index,
    {
        let event = &events[index];
        let mut cells: Vec<Cell> = Vec::new();
        cells.push(Cell::Number(event.seq));
        cells.push(Cell::Text(event.id.clone()));
        cells.push(Cell::Text(event.at.to_rfc3339()));
        cells.push(Cell::Text(event.actor.clone()));
        cells.push(Cell::Text(event.payload.event_type().to_owned()));
        cells.push(
            Cell::Document(
                Json::object().with("body", event.payload.to_body()).with(
                    "type",
                    Json::text(event.payload.event_type()),
                ),
            ),
        );
        assert(views::views(cells@) =~= event_row(event@).cells);
        rows.push(Row { table: Table::Events, cells });
        index += 1;
    }
    assert(views::views(rows@) =~= told);
    rows
}

pub open spec fn work_row(work: WorkView) -> RowView {
    RowView {
        table: Table::WorkCurrent,
        cells: seq![
            CellView::Text(work.id),
            CellView::Text(work.title),
            text_cell(work.spec),
            CellView::Signed(work.priority),
            CellView::Text(work.state.name()),
            text_cell(work.block_reason),
            match work.block_until {
                Some(until) => CellView::Text(until.shown()),
                None => CellView::Null,
            },
            text_cell(work.outcome),
            CellView::Number(work.opened_seq),
            CellView::Number(work.changed_seq),
        ],
    }
}

pub open spec fn dependency_row(work_id: Seq<char>, required: Seq<char>) -> RowView {
    RowView {
        table: Table::Dependencies,
        cells: seq![CellView::Text(work_id), CellView::Text(required)],
    }
}

pub open spec fn check_row(work_id: Seq<char>, check: CheckDefinitionView) -> RowView {
    RowView {
        table: Table::WorkChecks,
        cells: seq![
            CellView::Text(work_id),
            CellView::Text(check.key),
            CellView::Text(check.description),
        ],
    }
}

/// A work item: its own row, then one for each dependency and one for each check.
pub open spec fn rows_of_work(work: WorkView) -> Seq<RowView> {
    seq![work_row(work)] + work.requires.map_values(
        |required: Seq<char>| dependency_row(work.id, required),
    ) + work.checks.map_values(|check: CheckDefinitionView| check_row(work.id, check))
}

pub open spec fn all_work_rows(items: Seq<WorkView>) -> Seq<RowView>
    decreases items.len(),
{
    if items.len() == 0 {
        Seq::empty()
    } else {
        all_work_rows(items.drop_last()) + rows_of_work(items.last())
    }
}

fn work_rows(work: &Work) -> (rows: Vec<Row>)
    ensures
        views::views(rows@) == rows_of_work(work@),
{
    let mut cells: Vec<Cell> = Vec::new();
    cells.push(Cell::Text(work.id.clone()));
    cells.push(Cell::Text(work.title.clone()));
    cells.push(cell_of_text(&work.spec));
    cells.push(Cell::Signed(work.priority));
    cells.push(Cell::Text(work.state.as_str().to_owned()));
    cells.push(cell_of_text(&work.block_reason));
    let until = match work.block_until {
        Some(until) => Cell::Text(until.to_rfc3339()),
        None => Cell::Null,
    };
    cells.push(until);
    cells.push(cell_of_text(&work.outcome));
    cells.push(Cell::Number(work.opened_seq));
    cells.push(Cell::Number(work.changed_seq));
    assert(views::views(cells@) =~= work_row(work@).cells);
    let mut rows: Vec<Row> = Vec::new();
    rows.push(Row { table: Table::WorkCurrent, cells });
    let ghost first = seq![work_row(work@)];
    assert(views::views(rows@) =~= first);
    let ghost needs = work@.requires.map_values(
        |required: Seq<char>| dependency_row(work@.id, required),
    );
    let mut index: usize = 0;
    assert(first + needs.take(0) =~= first);
    while index < work.requires.len()
        invariant
            index <= work.requires@.len(),
            needs == work@.requires.map_values(
                |required: Seq<char>| dependency_row(work@.id, required),
            ),
            views::views(rows@) == first + needs.take(index as int),
        decreases work.requires@.len() - index,
    {
        let mut pair: Vec<Cell> = Vec::new();
        pair.push(Cell::Text(work.id.clone()));
        pair.push(Cell::Text(work.requires[index].clone()));
        let ghost before = views::views(rows@);
        rows.push(Row { table: Table::Dependencies, cells: pair });
        proof {
            assert(views::views(pair@) =~= needs[index as int].cells);
            assert(views::views(rows@) =~= before.push(needs[index as int]));
            assert(first + needs.take(index + 1) =~= (first + needs.take(index as int)).push(
                needs[index as int],
            ));
        }
        index += 1;
    }
    assert(needs.take(index as int) =~= needs);
    let ghost second = first + needs;
    let ghost checks = work@.checks.map_values(
        |check: CheckDefinitionView| check_row(work@.id, check),
    );
    let mut next: usize = 0;
    assert(second + checks.take(0) =~= second);
    while next < work.checks.len()
        invariant
            next <= work.checks@.len(),
            checks == work@.checks.map_values(
                |check: CheckDefinitionView| check_row(work@.id, check),
            ),
            views::views(rows@) == second + checks.take(next as int),
        decreases work.checks@.len() - next,
    {
        let mut three: Vec<Cell> = Vec::new();
        three.push(Cell::Text(work.id.clone()));
        three.push(Cell::Text(work.checks[next].key.clone()));
        three.push(Cell::Text(work.checks[next].description.clone()));
        let ghost before = views::views(rows@);
        rows.push(Row { table: Table::WorkChecks, cells: three });
        proof {
            assert(views::views(three@) =~= checks[next as int].cells);
            assert(views::views(rows@) =~= before.push(checks[next as int]));
            assert(second + checks.take(next + 1) =~= (second + checks.take(next as int)).push(
                checks[next as int],
            ));
        }
        next += 1;
    }
    assert(checks.take(next as int) =~= checks);
    rows
}

pub open spec fn attempt_row(attempt: AttemptView) -> RowView {
    RowView {
        table: Table::Attempts,
        cells: seq![
            CellView::Text(attempt.id),
            CellView::Text(attempt.work_id),
            CellView::Text(attempt.state.name()),
            match attempt.outcome {
                Some(outcome) => CellView::Text(outcome.name()),
                None => CellView::Null,
            },
            text_cell(attempt.tier),
            text_cell(attempt.handle),
            CellView::Document(wire::map_json::<Json>(attempt.metadata)),
            text_cell(attempt.note),
            CellView::Number(attempt.started_seq),
            number_cell(attempt.bound_seq),
            CellView::Number(attempt.updated_seq),
            number_cell(attempt.ended_seq),
        ],
    }
}

pub open spec fn attempt_check_row(attempt_id: Seq<char>, check: AttemptCheckView) -> RowView {
    RowView {
        table: Table::AttemptChecks,
        cells: seq![
            CellView::Text(attempt_id),
            CellView::Text(check.key),
            CellView::Text(check.status.name()),
            text_cell(check.evidence),
            number_cell(check.updated_seq),
        ],
    }
}

/// An attempt: its own row, then one for each check.
pub open spec fn rows_of_attempt(attempt: AttemptView) -> Seq<RowView> {
    seq![attempt_row(attempt)] + selection::values::<String, AttemptCheckView>(
        attempt.checks,
    ).map_values(|check: AttemptCheckView| attempt_check_row(attempt.id, check))
}

pub open spec fn all_attempt_rows(items: Seq<AttemptView>) -> Seq<RowView>
    decreases items.len(),
{
    if items.len() == 0 {
        Seq::empty()
    } else {
        all_attempt_rows(items.drop_last()) + rows_of_attempt(items.last())
    }
}

fn attempt_rows(attempt: &Attempt) -> (rows: Vec<Row>)
    ensures
        views::views(rows@) == rows_of_attempt(attempt@),
{
    let mut cells: Vec<Cell> = Vec::new();
    cells.push(Cell::Text(attempt.id.clone()));
    cells.push(Cell::Text(attempt.work_id.clone()));
    cells.push(Cell::Text(attempt.state.as_str().to_owned()));
    let outcome = match attempt.outcome {
        Some(outcome) => Cell::Text(outcome.as_str().to_owned()),
        None => Cell::Null,
    };
    cells.push(outcome);
    cells.push(cell_of_text(&attempt.tier));
    cells.push(cell_of_text(&attempt.handle));
    cells.push(Cell::Document(map_to_json(&attempt.metadata)));
    cells.push(cell_of_text(&attempt.note));
    cells.push(Cell::Number(attempt.started_seq));
    cells.push(cell_of_number(attempt.bound_seq));
    cells.push(Cell::Number(attempt.updated_seq));
    cells.push(cell_of_number(attempt.ended_seq));
    assert(views::views(cells@) =~= attempt_row(attempt@).cells);
    let mut rows: Vec<Row> = Vec::new();
    rows.push(Row { table: Table::Attempts, cells });
    let ghost first = seq![attempt_row(attempt@)];
    assert(views::views(rows@) =~= first);
    let all = values_of(&attempt.checks);
    let ghost checks = views::views(all@).map_values(
        |check: AttemptCheckView| attempt_check_row(attempt@.id, check),
    );
    let mut index: usize = 0;
    assert(first + checks.take(0) =~= first);
    while index < all.len()
        invariant
            index <= all@.len(),
            checks == views::views(all@).map_values(
                |check: AttemptCheckView| attempt_check_row(attempt@.id, check),
            ),
            views::views(rows@) == first + checks.take(index as int),
        decreases all@.len() - index,
    {
        let mut five: Vec<Cell> = Vec::new();
        five.push(Cell::Text(attempt.id.clone()));
        five.push(Cell::Text(all[index].key.clone()));
        five.push(Cell::Text(all[index].status.as_str().to_owned()));
        five.push(cell_of_text(&all[index].evidence));
        five.push(cell_of_number(all[index].updated_seq));
        let ghost before = views::views(rows@);
        rows.push(Row { table: Table::AttemptChecks, cells: five });
        proof {
            assert(views::views(five@) =~= checks[index as int].cells);
            assert(views::views(rows@) =~= before.push(checks[index as int]));
            assert(first + checks.take(index + 1) =~= (first + checks.take(index as int)).push(
                checks[index as int],
            ));
        }
        index += 1;
    }
    assert(checks.take(index as int) =~= checks);
    rows
}

pub open spec fn question_row(question: QuestionView) -> RowView {
    RowView {
        table: Table::Questions,
        cells: seq![
            CellView::Text(question.id),
            CellView::Text(question.work_id),
            CellView::Text(question.text),
            text_cell(question.answer),
            CellView::Number(question.asked_seq),
            number_cell(question.answered_seq),
            text_cell(question.answered_by),
        ],
    }
}

pub open spec fn answer_row(question_id: Seq<char>, answer: QuestionAnswerView) -> RowView {
    RowView {
        table: Table::QuestionAnswers,
        cells: seq![
            CellView::Text(question_id),
            CellView::Number(answer.seq),
            CellView::Text(answer.answer),
            CellView::Text(answer.actor),
        ],
    }
}

/// A question: its own row, then one for each answer.
pub open spec fn rows_of_question(question: QuestionView) -> Seq<RowView> {
    seq![question_row(question)] + question.answers.map_values(
        |answer: QuestionAnswerView| answer_row(question.id, answer),
    )
}

pub open spec fn all_question_rows(items: Seq<QuestionView>) -> Seq<RowView>
    decreases items.len(),
{
    if items.len() == 0 {
        Seq::empty()
    } else {
        all_question_rows(items.drop_last()) + rows_of_question(items.last())
    }
}

fn question_rows(question: &Question) -> (rows: Vec<Row>)
    ensures
        views::views(rows@) == rows_of_question(question@),
{
    let mut cells: Vec<Cell> = Vec::new();
    cells.push(Cell::Text(question.id.clone()));
    cells.push(Cell::Text(question.work_id.clone()));
    cells.push(Cell::Text(question.text.clone()));
    cells.push(cell_of_text(&question.answer));
    cells.push(Cell::Number(question.asked_seq));
    cells.push(cell_of_number(question.answered_seq));
    cells.push(cell_of_text(&question.answered_by));
    assert(views::views(cells@) =~= question_row(question@).cells);
    let mut rows: Vec<Row> = Vec::new();
    rows.push(Row { table: Table::Questions, cells });
    let ghost first = seq![question_row(question@)];
    assert(views::views(rows@) =~= first);
    let ghost answers = question@.answers.map_values(
        |answer: QuestionAnswerView| answer_row(question@.id, answer),
    );
    let mut index: usize = 0;
    assert(first + answers.take(0) =~= first);
    while index < question.answers.len()
        invariant
            index <= question.answers@.len(),
            answers == question@.answers.map_values(
                |answer: QuestionAnswerView| answer_row(question@.id, answer),
            ),
            views::views(rows@) == first + answers.take(index as int),
        decreases question.answers@.len() - index,
    {
        let mut four: Vec<Cell> = Vec::new();
        four.push(Cell::Text(question.id.clone()));
        four.push(Cell::Number(question.answers[index].seq));
        four.push(Cell::Text(question.answers[index].answer.clone()));
        four.push(Cell::Text(question.answers[index].actor.clone()));
        let ghost before = views::views(rows@);
        rows.push(Row { table: Table::QuestionAnswers, cells: four });
        proof {
            assert(views::views(four@) =~= answers[index as int].cells);
            assert(views::views(rows@) =~= before.push(answers[index as int]));
            assert(first + answers.take(index + 1) =~= (first + answers.take(index as int)).push(
                answers[index as int],
            ));
        }
        index += 1;
    }
    assert(answers.take(index as int) =~= answers);
    rows
}

pub open spec fn loop_row(control: LoopControlView) -> RowView {
    RowView {
        table: Table::LoopControl,
        cells: seq![
            CellView::Number(0),
            CellView::Number(
                if control.paused {
                    1
                } else {
                    0
                },
            ),
            text_cell(control.pause_reason),
            text_cell(control.engine),
            number_cell(control.rotate_requested_seq),
            number_cell(control.nudge_requested_seq),
        ],
    }
}

/// All rows of a project but those of its events.
pub open spec fn rows_of(s: StateView) -> Seq<RowView> {
    all_work_rows(selection::values::<String, WorkView>(s.work)) + all_attempt_rows(
        selection::values::<String, AttemptView>(s.attempts),
    ) + all_question_rows(selection::values::<String, QuestionView>(s.questions)) + seq![
        loop_row(s.loop_control),
    ]
}

fn add_rows(rows: &mut Vec<Row>, more: Vec<Row>)
    ensures
        views::views(final(rows)@) == views::views(old(rows)@) + views::views(more@),
{
    let ghost before = views::views(rows@);
    let mut added = more;
    let ghost told = views::views(added@);
    rows.append(&mut added);
    assert(views::views(rows@) =~= before + told);
}

pub fn state_rows(state: &ProjectState) -> (rows: Vec<Row>)
    ensures
        views::views(rows@) == rows_of(state@),
{
    let mut rows: Vec<Row> = Vec::new();
    assert(views::views(rows@) =~= Seq::<RowView>::empty());
    let work = values_of(&state.work);
    let ghost all_work = views::views(work@);
    let mut index: usize = 0;
    assert(all_work.take(0) =~= Seq::<WorkView>::empty());
    while index < work.len()
        invariant
            index <= work@.len(),
            all_work == views::views(work@),
            views::views(rows@) == all_work_rows(all_work.take(index as int)),
        decreases work@.len() - index,
    {
        assert(all_work.take(index + 1).drop_last() =~= all_work.take(index as int));
        assert(all_work.take(index + 1).last() == work@[index as int]@);
        let more = work_rows(&work[index]);
        add_rows(&mut rows, more);
        index += 1;
    }
    assert(all_work.take(index as int) =~= all_work);
    let ghost first = views::views(rows@);
    let attempts = values_of(&state.attempts);
    let ghost all_attempts = views::views(attempts@);
    let mut next: usize = 0;
    assert(all_attempts.take(0) =~= Seq::<AttemptView>::empty());
    assert(first + all_attempt_rows(all_attempts.take(0)) =~= first);
    while next < attempts.len()
        invariant
            next <= attempts@.len(),
            all_attempts == views::views(attempts@),
            views::views(rows@) == first + all_attempt_rows(all_attempts.take(next as int)),
        decreases attempts@.len() - next,
    {
        assert(all_attempts.take(next + 1).drop_last() =~= all_attempts.take(next as int));
        assert(all_attempts.take(next + 1).last() == attempts@[next as int]@);
        let more = attempt_rows(&attempts[next]);
        let ghost before = all_attempt_rows(all_attempts.take(next as int));
        let ghost added = views::views(more@);
        add_rows(&mut rows, more);
        assert((first + before) + added =~= first + (before + added));
        next += 1;
    }
    assert(all_attempts.take(next as int) =~= all_attempts);
    let ghost second = views::views(rows@);
    let questions = values_of(&state.questions);
    let ghost all_questions = views::views(questions@);
    let mut last: usize = 0;
    assert(all_questions.take(0) =~= Seq::<QuestionView>::empty());
    assert(second + all_question_rows(all_questions.take(0)) =~= second);
    while last < questions.len()
        invariant
            last <= questions@.len(),
            all_questions == views::views(questions@),
            views::views(rows@) == second + all_question_rows(all_questions.take(last as int)),
        decreases questions@.len() - last,
    {
        assert(all_questions.take(last + 1).drop_last() =~= all_questions.take(last as int));
        assert(all_questions.take(last + 1).last() == questions@[last as int]@);
        let more = question_rows(&questions[last]);
        let ghost before = all_question_rows(all_questions.take(last as int));
        let ghost added = views::views(more@);
        add_rows(&mut rows, more);
        assert((second + before) + added =~= second + (before + added));
        last += 1;
    }
    assert(all_questions.take(last as int) =~= all_questions);
    let control = &state.loop_control;
    let mut cells: Vec<Cell> = Vec::new();
    cells.push(Cell::Number(0));
    cells.push(
        Cell::Number(
            if control.paused {
                1
            } else {
                0
            },
        ),
    );
    cells.push(cell_of_text(&control.pause_reason));
    cells.push(cell_of_text(&control.engine));
    cells.push(cell_of_number(control.rotate_requested_seq));
    cells.push(cell_of_number(control.nudge_requested_seq));
    assert(views::views(cells@) =~= loop_row(state@.loop_control).cells);
    let ghost third = views::views(rows@);
    rows.push(Row { table: Table::LoopControl, cells });
    assert(views::views(rows@) =~= third + seq![loop_row(state@.loop_control)]);
    rows
}

// ---- whether a projection is up to date ----

/// How many of the rows belong to the table.
pub open spec fn count_in(rows: Seq<RowView>, table: Table) -> nat
    decreases rows.len(),
{
    if rows.len() == 0 {
        0
    } else {
        count_in(rows.drop_last(), table) + if rows.last().table == table {
            1nat
        } else {
            0nat
        }
    }
}

proof fn count_in_joined(a: Seq<RowView>, b: Seq<RowView>, table: Table)
    ensures
        count_in(a + b, table) == count_in(a, table) + count_in(b, table),
    decreases b.len(),
{
    if b.len() == 0 {
        assert(a + b =~= a);
    } else {
        assert((a + b).drop_last() =~= a + b.drop_last());
        count_in_joined(a, b.drop_last(), table);
    }
}

proof fn count_in_other(rows: Seq<RowView>, table: Table)
    requires
        forall|i: int| 0 <= i < rows.len() ==> (#[trigger] rows[i]).table != table,
    ensures
        count_in(rows, table) == 0,
    decreases rows.len(),
{
    if rows.len() > 0 {
        assert forall|i: int| 0 <= i < rows.drop_last().len() implies (
        #[trigger] rows.drop_last()[i]).table != table by {
            assert(rows.drop_last()[i] == rows[i]);
        }
        count_in_other(rows.drop_last(), table);
        assert(rows[rows.len() - 1].table != table);
    }
}

proof fn count_in_one(row: RowView, table: Table)
    ensures
        count_in(seq![row], table) == (if row.table == table {
            1nat
        } else {
            0nat
        }),
{
    let rows = seq![row];
    assert(rows.drop_last() =~= Seq::<RowView>::empty());
    assert(count_in(rows.drop_last(), table) == 0);
}

proof fn work_rows_counted(items: Seq<WorkView>, table: Table)
    ensures
        table == Table::WorkCurrent ==> count_in(all_work_rows(items), table) == items.len(),
        table == Table::Attempts ==> count_in(all_work_rows(items), table) == 0,
    decreases items.len(),
{
    if items.len() > 0 {
        work_rows_counted(items.drop_last(), table);
        let work = items.last();
        let needs = work.requires.map_values(
            |required: Seq<char>| dependency_row(work.id, required),
        );
        let checks = work.checks.map_values(
            |check: CheckDefinitionView| check_row(work.id, check),
        );
        count_in_joined(all_work_rows(items.drop_last()), rows_of_work(work), table);
        count_in_joined(seq![work_row(work)] + needs, checks, table);
        count_in_joined(seq![work_row(work)], needs, table);
        count_in_one(work_row(work), table);
        if table == Table::WorkCurrent || table == Table::Attempts {
            count_in_other(needs, table);
            count_in_other(checks, table);
        }
    }
}

proof fn attempt_rows_counted(items: Seq<AttemptView>, table: Table)
    ensures
        table == Table::Attempts ==> count_in(all_attempt_rows(items), table) == items.len(),
        table == Table::WorkCurrent ==> count_in(all_attempt_rows(items), table) == 0,
    decreases items.len(),
{
    if items.len() > 0 {
        attempt_rows_counted(items.drop_last(), table);
        let attempt = items.last();
        let checks = selection::values::<String, AttemptCheckView>(attempt.checks).map_values(
            |check: AttemptCheckView| attempt_check_row(attempt.id, check),
        );
        count_in_joined(all_attempt_rows(items.drop_last()), rows_of_attempt(attempt), table);
        count_in_joined(seq![attempt_row(attempt)], checks, table);
        count_in_one(attempt_row(attempt), table);
        if table == Table::WorkCurrent || table == Table::Attempts {
            count_in_other(checks, table);
        }
    }
}

proof fn question_rows_counted(items: Seq<QuestionView>, table: Table)
    requires
        table == Table::Attempts || table == Table::WorkCurrent,
    ensures
        count_in(all_question_rows(items), table) == 0,
    decreases items.len(),
{
    if items.len() > 0 {
        question_rows_counted(items.drop_last(), table);
        let question = items.last();
        let answers = question.answers.map_values(
            |answer: QuestionAnswerView| answer_row(question.id, answer),
        );
        count_in_joined(all_question_rows(items.drop_last()), rows_of_question(question), table);
        count_in_joined(seq![question_row(question)], answers, table);
        count_in_one(question_row(question), table);
        count_in_other(answers, table);
    }
}

proof fn values_counted<T>(entries: Map<Seq<char>, T>)
    requires
        entries.dom().finite(),
    ensures
        selection::values::<String, T>(entries).len() == entries.len(),
{
    catalog::listing_exists::<String>(entries.dom());
    let keys = catalog::listing::<String>(entries.dom());
    assert(keys.no_duplicates()) by {
        assert forall|i: int, j: int|
            0 <= i < keys.len() && 0 <= j < keys.len() && i != j implies keys[i] != keys[j] by {
            if i < j {
                assert(<String as catalog::Key>::before(keys[i], keys[j]));
            } else {
                assert(<String as catalog::Key>::before(keys[j], keys[i]));
            }
            text::text_before_irreflexive(keys[i]);
        }
    }
    keys.unique_seq_to_set();
}

/// The projection of a project has one work row for each work item and one attempt
/// row for each attempt: a projection that was just rebuilt passes verification.
pub proof fn rebuilt_projections_verify(s: StateView, head: HeadView)
    requires
        s.work.dom().finite(),
        s.attempts.dom().finite(),
        s.work.len() <= u64::MAX,
        s.attempts.len() <= u64::MAX,
    ensures
        count_in(rows_of(s), Table::WorkCurrent) == s.work.len(),
        count_in(rows_of(s), Table::Attempts) == s.attempts.len(),
        verdict(
            Some(head),
            head,
            count_in(rows_of(s), Table::WorkCurrent) as u64,
            count_in(rows_of(s), Table::Attempts) as u64,
            s,
        ) is Ok,
{
    let work = all_work_rows(selection::values::<String, WorkView>(s.work));
    let attempts = all_attempt_rows(selection::values::<String, AttemptView>(s.attempts));
    let questions = all_question_rows(selection::values::<String, QuestionView>(s.questions));
    let control = seq![loop_row(s.loop_control)];
    values_counted(s.work);
    values_counted(s.attempts);
    count_in_joined(work + attempts + questions, control, Table::WorkCurrent);
    count_in_joined(work + attempts, questions, Table::WorkCurrent);
    count_in_joined(work, attempts, Table::WorkCurrent);
    count_in_joined(work + attempts + questions, control, Table::Attempts);
    count_in_joined(work + attempts, questions, Table::Attempts);
    count_in_joined(work, attempts, Table::Attempts);
    count_in_one(loop_row(s.loop_control), Table::WorkCurrent);
    count_in_one(loop_row(s.loop_control), Table::Attempts);
    work_rows_counted(selection::values::<String, WorkView>(s.work), Table::WorkCurrent);
    work_rows_counted(selection::values::<String, WorkView>(s.work), Table::Attempts);
    attempt_rows_counted(selection::values::<String, AttemptView>(s.attempts), Table::WorkCurrent);
    attempt_rows_counted(selection::values::<String, AttemptView>(s.attempts), Table::Attempts);
    question_rows_counted(
        selection::values::<String, QuestionView>(s.questions),
        Table::WorkCurrent,
    );
    question_rows_counted(selection::values::<String, QuestionView>(s.questions), Table::Attempts);
}

pub open spec fn head_or_null(head: Option<HeadView>) -> JsonView {
    match head {
        Some(at) => store::head_json(at),
        None => JsonView::Null,
    }
}

/// Whether a projection stands at the head and has a row for each work item and
/// each attempt.
pub open spec fn verdict(
    represented: Option<HeadView>,
    head: HeadView,
    work_rows: u64,
    attempt_rows: u64,
    s: StateView,
) -> core::result::Result<JsonView, ErrorView> {
    if represented == Some(head) && work_rows == s.work.len() && attempt_rows == s.attempts.len() {
        Ok(
            json::empty_object().with("attempt_rows"@, JsonView::Int(attempt_rows as int)).with(
                "head"@,
                JsonView::Int(head.seq as int),
            ).with("revision"@, json::text_or_null(head.revision)).with(
                "valid"@,
                JsonView::Bool(true),
            ).with("work_rows"@, JsonView::Int(work_rows as int)),
        )
    } else {
        Err(
            error::context_error(
                "projection_mismatch"@,
                "the SQLite projection does not match the durable fold"@,
                json::empty_object().with(
                    "attempt_rows"@,
                    JsonView::Int(attempt_rows as int),
                ).with("durable_attempts"@, JsonView::Int(s.attempts.len() as int)).with(
                    "durable_head"@,
                    store::head_json(head),
                ).with("durable_work"@, JsonView::Int(s.work.len() as int)).with(
                    "represented_head"@,
                    head_or_null(represented),
                ).with("work_rows"@, JsonView::Int(work_rows as int)),
            ),
        )
    }
}

/// Holds what a projection represents against the project.
pub fn verify_projection(
    represented: &Option<Head>,
    head: &Head,
    work_rows: u64,
    attempt_rows: u64,
    state: &ProjectState,
) -> (outcome: Result<Json>)
    ensures
        match verdict(views::opt_view(*represented), head@, work_rows, attempt_rows, state@) {
            Ok(document) => outcome matches Ok(d) && d@ == document,
            Err(error) => outcome matches Err(e) && e@ == error,
        },
{
    let work_count = state.work.len() as u64;
    let attempt_count = state.attempts.len() as u64;
    proof {
        catalog::listing_exists::<String>(state@.work.dom());
        catalog::listing_exists::<String>(state@.attempts.dom());
        values_counted(state@.work);
        values_counted(state@.attempts);
    }
    let same = match represented {
        Some(at) => at.is_same(head),
        None => false,
    };
    if same && work_rows == work_count && attempt_rows == attempt_count {
        return Ok(
            Json::object().with("attempt_rows", Json::number(attempt_rows)).with(
                "head",
                Json::number(head.sequence()),
            ).with("revision", Json::optional_text(&head.revision)).with(
                "valid",
                Json::Bool(true),
            ).with("work_rows", Json::number(work_rows)),
        );
    }
    let at = match represented {
        Some(at) => at.to_json(),
        None => Json::Null,
    };
    Err(
        AlderError::with_context(
            "projection_mismatch",
            "the SQLite projection does not match the durable fold".to_owned(),
            Json::object().with("attempt_rows", Json::number(attempt_rows)).with(
                "durable_attempts",
                Json::number(attempt_count),
            ).with("durable_head", head.to_json()).with(
                "durable_work",
                Json::number(work_count),
            ).with("represented_head", at).with("work_rows", Json::number(work_rows)),
        ),
    )
}

/// The number that a text stands for; a plus sign may stand in front of it.
pub open spec fn whole_number(text: Seq<char>) -> Option<u64> {
    if text.len() > 1 && text[0] == '+' {
        text::number_in(text.drop_first())
    } else {
        text::number_in(text)
    }
}

fn parse_number(text: &str) -> (n: Option<u64>)
    ensures
        n == whole_number(text@),
{
    let chars = chars_of(text);
    if chars.len() > 1 && chars[0] == '+' {
        let digits = text_between(&chars, 1, chars.len());
        assert(digits@ =~= text@.drop_first());
        read_number(digits.as_str())
    } else {
        read_number(text)
    }
}

/// The head that a projection says it represents. Both halves are there or neither
/// is; an empty revision is none.
pub open spec fn represented(
    revision: Option<Seq<char>>,
    seq: Option<Seq<char>>,
) -> core::result::Result<
    Option<HeadView>,
    ErrorView,
> {
    match (revision, seq) {
        (None, None) => Ok(None),
        (Some(name), Some(digits)) => match whole_number(digits) {
            None => Err(
                error::plain_error("database_error"@, "projection head sequence is invalid"@),
            ),
            Some(n) => Ok(
                Some(
                    HeadView {
                        revision: if name.len() == 0 {
                            None
                        } else {
                            Some(name)
                        },
                        seq: n,
                    },
                ),
            ),
        },
        _ => Err(error::plain_error("database_error"@, "projection head metadata is incomplete"@)),
    }
}

pub fn represented_head(revision: &Option<String>, seq: &Option<String>) -> (outcome: Result<
    Option<Head>,
>)
    ensures
        match represented(views::opt_view(*revision), views::opt_view(*seq)) {
            Ok(head) => outcome matches Ok(h) && views::opt_view(h) == head,
            Err(error) => outcome matches Err(e) && e@ == error,
        },
{
    match (revision, seq) {
        (None, None) => Ok(None),
        (Some(name), Some(digits)) => match parse_number(digits.as_str()) {
            None => Err(
                AlderError::new(
                    "database_error",
                    "projection head sequence is invalid".to_owned(),
                ),
            ),
            Some(n) => {
                let chars = chars_of(name.as_str());
                let held = if chars.len() == 0 {
                    None
                } else {
                    Some(name.clone())
                };
                Ok(Some(Head { revision: held, seq: n }))
            },
        },
        _ => Err(
            AlderError::new(
                "database_error",
                "projection head metadata is incomplete".to_owned(),
            ),
        ),
    }
}

/// Whether a projection has to be rebuilt: it has to unless it represents the head.
pub fn is_stale(represented: &Option<Head>, head: &Head) -> (stale: bool)
    ensures
        stale == (views::opt_view(*represented) != Some(head@)),
{
    match represented {
        Some(at) => !at.is_same(head),
        None => true,
    }
}

// ---- bytes in an answer ----

pub open spec fn nibble(n: u8) -> char {
    if n < 10 {
        (0x30 + n) as char
    } else {
        (0x57 + n) as char
    }
}

/// Two hexadecimal digits for each byte.
pub open spec fn hexadecimal(bytes: Seq<u8>) -> Seq<char>
    decreases bytes.len(),
{
    if bytes.len() == 0 {
        Seq::empty()
    } else {
        hexadecimal(bytes.drop_last()).push(nibble(bytes.last() / 16)).push(
            nibble(bytes.last() % 16),
        )
    }
}

fn nibble_of(n: u8) -> (digit: char)
    requires
        n < 16,
    ensures
        digit == nibble(n),
{
    if n < 10 {
        (0x30 + n) as char
    } else {
        (0x57 + n) as char
    }
}

pub fn hex(bytes: &[u8]) -> (text: String)
    ensures
        text@ == hexadecimal(bytes@),
{
    let mut text = String::new();
    let mut index: usize = 0;
    assert(bytes@.take(0) =~= Seq::<u8>::empty());
    while index < bytes.len()
        invariant
            index <= bytes@.len(),
            text@ == hexadecimal(bytes@.take(index as int)),
        decreases bytes@.len() - index,
    {
        assert(bytes@.take(index + 1).drop_last() =~= bytes@.take(index as int));
        text.push(nibble_of(bytes[index] / 16));
        text.push(nibble_of(bytes[index] % 16));
        index += 1;
    }
    assert(bytes@.take(index as int) =~= bytes@);
    text
}

} // verus!

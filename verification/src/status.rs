//! The context pack: what is going on, what can be started, what waits.

use vstd::prelude::*;

use crate::attempt::{Attempt, AttemptState, AttemptView};
use crate::catalog::Replica;
use crate::change;
use crate::change::{
    prepare_change, AddWorkInput, AddWorkInputView, ChangeMode, GraphChangeDocument,
    GraphChangeDocumentView,
};
use crate::cli::StatusSection;
use crate::documents;
use crate::documents::{
    event_summaries, loop_lines, loop_section, question_values, recent_events, Output,
    OutputView, ReconcileFinding, FindingView,
};
use crate::error::{ErrorView, Result};
use crate::event::{Event, EventPayload, EventView, WorkEventPayload};
use crate::instant::Instant;
use crate::json;
use crate::json::{Json, JsonView};
use crate::log::{Snapshot, SnapshotView};
use crate::observation::{Observation, ObservationKey, ObservationView};
use crate::project::{ProjectState, StateView};
use crate::question::{Question, QuestionView};
use crate::rules;
use crate::selection;
use crate::selection::{chosen, lines_of, values_of, Tell, Test};
use crate::sorting;
use crate::sorting::{sort, Ranked};
use crate::store;
use crate::store::{Head, HeadView};
use crate::text;
use crate::text::{decimal_text, join_texts, joined, joined3, joined5, same_text, signed_text};
use crate::views;
use crate::views::opt_replica;
use crate::wire;
use crate::wire::{list_to_json, opt_to_json};
use crate::work::{Work, WorkState, WorkView};

verus! {

// ---- what stands in each section ----

impl Ranked for Attempt {
    open spec fn ahead(a: AttemptView, b: AttemptView) -> bool {
        a.started_seq < b.started_seq
    }

    fn is_ahead(&self, other: &Attempt) -> (ahead: bool) {
        self.started_seq < other.started_seq
    }
}

/// Work by age: what was opened first stands first.
impl Ranked for Work {
    open spec fn ahead(a: WorkView, b: WorkView) -> bool {
        a.opened_seq < b.opened_seq
    }

    fn is_ahead(&self, other: &Work) -> (ahead: bool) {
        self.opened_seq < other.opened_seq
    }
}

impl Ranked for Question {
    open spec fn ahead(a: QuestionView, b: QuestionView) -> bool {
        a.asked_seq < b.asked_seq
    }

    fn is_ahead(&self, other: &Question) -> (ahead: bool) {
        self.asked_seq < other.asked_seq
    }
}

pub struct Running;

pub open spec fn running() -> spec_fn(AttemptView) -> bool {
    |a: AttemptView| a.state is Starting || a.state is Active
}

impl Test<Attempt> for Running {
    open spec fn test(&self) -> spec_fn(AttemptView) -> bool {
        running()
    }

    fn passes(&self, item: &Attempt) -> (passes: bool) {
        match item.state {
            AttemptState::Starting | AttemptState::Active => true,
            AttemptState::Ended => false,
        }
    }
}

/// The attempts that have not ended, by when they started.
pub open spec fn in_flight(s: StateView) -> Seq<AttemptView> {
    sorting::sorted::<Attempt>(
        selection::values::<String, AttemptView>(s.attempts).filter(running()),
    )
}

pub fn in_flight_attempts(state: &ProjectState) -> (attempts: Vec<Attempt>)
    ensures
        views::views(attempts@) == in_flight(state@),
{
    let all = values_of(&state.attempts);
    sort(chosen(&all, &Running))
}

pub fn in_flight_section(state: &ProjectState) -> (document: Json)
    ensures
        document@ == wire::list_json::<Attempt>(in_flight(state@)),
{
    list_to_json(&in_flight_attempts(state))
}

pub struct IsBlocked;

pub open spec fn is_blocked() -> spec_fn(WorkView) -> bool {
    |w: WorkView| w.state is Blocked
}

impl Test<Work> for IsBlocked {
    open spec fn test(&self) -> spec_fn(WorkView) -> bool {
        is_blocked()
    }

    fn passes(&self, item: &Work) -> (passes: bool) {
        item.state == WorkState::Blocked
    }
}

pub open spec fn blocked_work(s: StateView) -> Seq<WorkView> {
    sorting::sorted::<Work>(selection::values::<String, WorkView>(s.work).filter(is_blocked()))
}

pub open spec fn expired(now: Instant) -> spec_fn(WorkView) -> bool {
    |w: WorkView| w.state is Blocked && w.block_until is Some && !now.earlier(w.block_until->0)
}

pub struct Expired {
    pub now: Instant,
}

impl Test<Work> for Expired {
    open spec fn test(&self) -> spec_fn(WorkView) -> bool {
        expired(self.now)
    }

    fn passes(&self, item: &Work) -> (passes: bool) {
        match (item.state, item.block_until) {
            (WorkState::Blocked, Some(until)) => !self.now.is_before(until),
            _ => false,
        }
    }
}

/// The finding about a block whose review time has come. The work stays blocked:
/// somebody has to review it.
pub open spec fn expiry(work: WorkView) -> FindingView {
    FindingView {
        kind: "block_expired"@,
        attempt_id: None,
        handle: None,
        status: "blocked"@,
        detail: "`"@ + work.id + "` was deferred until "@ + work.block_until->0.shown()
            + " and that time has passed — review it"@,
        suggested_command: Some(
            "alder work unblock "@ + work.id + " --why \"deferral reviewed: …\""@,
        ),
        metadata: json::empty_object().with(
            "until"@,
            wire::opt_json::<Instant>(work.block_until),
        ).with("work_id"@, JsonView::Text(work.id)),
    }
}

pub open spec fn expiries(s: StateView, now: Instant) -> Seq<FindingView> {
    sorting::sorted::<Work>(
        selection::values::<String, WorkView>(s.work).filter(expired(now)),
    ).map_values(|w: WorkView| expiry(w))
}

/// The findings about blocks whose review time has come by `now`.
pub fn expired_block_findings(state: &ProjectState, now: Instant) -> (findings: Vec<
    ReconcileFinding,
>)
    ensures
        views::views(findings@) == expiries(state@, now),
{
    let all = values_of(&state.work);
    let found = chosen(&all, &Expired { now });
    let ghost picked = views::views(found@);
    proof {
        filtered_pass(views::views(all@), expired(now));
        sorting::sorted_is_ordered_permutation::<Work>(picked);
        sorted_keeps_all::<Work>(picked, expired(now));
    }
    let ordered = sort(found);
    let ghost told = views::views(ordered@).map_values(|w: WorkView| expiry(w));
    let mut findings: Vec<ReconcileFinding> = Vec::new();
    let mut index: usize = 0;
    while index < ordered.len()
        invariant
            index <= ordered@.len(),
            findings@.len() == index,
            told == views::views(ordered@).map_values(|w: WorkView| expiry(w)),
            forall|i: int|
                0 <= i < ordered@.len() ==> expired(now)(#[trigger] views::views(ordered@)[i]),
            forall|i: int| 0 <= i < index ==> (#[trigger] findings@[i])@ == told[i],
        decreases ordered@.len() - index,
    {
        let work = &ordered[index];
        assert(expired(now)(views::views(ordered@)[index as int]));
        let until = match work.block_until {
            Some(until) => until,
            None => now,
        };
        findings.push(
            ReconcileFinding {
                kind: "block_expired".to_owned(),
                attempt_id: None,
                handle: None,
                status: "blocked".to_owned(),
                detail: joined5(
                    "`",
                    work.id.as_str(),
                    "` was deferred until ",
                    until.to_rfc3339().as_str(),
                    " and that time has passed — review it",
                ),
                suggested_command: Some(
                    joined3(
                        "alder work unblock ",
                        work.id.as_str(),
                        " --why \"deferral reviewed: …\"",
                    ),
                ),
                metadata: Json::object().with("until", opt_to_json(&work.block_until)).with(
                    "work_id",
                    Json::text(work.id.as_str()),
                ),
            },
        );
        assert(findings@[index as int]@ == told[index as int]);
        index += 1;
    }
    assert(views::views(findings@) =~= told);
    findings
}

proof fn filtered_pass<T>(items: Seq<T>, test: spec_fn(T) -> bool)
    ensures
        forall|i: int| 0 <= i < items.filter(test).len() ==> test(#[trigger] items.filter(test)[i]),
    decreases items.len(),
{
    reveal(Seq::filter);
    if items.len() > 0 {
        filtered_pass(items.drop_last(), test);
    }
}

proof fn sorted_keeps_all<T: Ranked>(items: Seq<T::V>, test: spec_fn(T::V) -> bool)
    requires
        forall|i: int| 0 <= i < items.len() ==> test(#[trigger] items[i]),
    ensures
        forall|i: int|
            0 <= i < sorting::sorted::<T>(items).len() ==> test(
                #[trigger] sorting::sorted::<T>(items)[i],
            ),
    decreases items.len(),
{
    if items.len() > 0 {
        assert forall|i: int| 0 <= i < items.drop_last().len() implies test(
            #[trigger] items.drop_last()[i],
        ) by {
            assert(items.drop_last()[i] == items[i]);
        }
        sorted_keeps_all::<T>(items.drop_last(), test);
        assert(test(items[items.len() - 1]));
        placed_keeps_all::<T>(sorting::sorted::<T>(items.drop_last()), items.last(), test);
    }
}

proof fn placed_keeps_all<T: Ranked>(items: Seq<T::V>, item: T::V, test: spec_fn(T::V) -> bool)
    requires
        test(item),
        forall|i: int| 0 <= i < items.len() ==> test(#[trigger] items[i]),
    ensures
        forall|i: int|
            0 <= i < sorting::placed::<T>(items, item).len() ==> test(
                #[trigger] sorting::placed::<T>(items, item)[i],
            ),
    decreases items.len(),
{
    if items.len() > 0 && T::ahead(item, items.last()) {
        assert forall|i: int| 0 <= i < items.drop_last().len() implies test(
            #[trigger] items.drop_last()[i],
        ) by {
            assert(items.drop_last()[i] == items[i]);
        }
        assert(test(items[items.len() - 1]));
        placed_keeps_all::<T>(items.drop_last(), item, test);
        let front = sorting::placed::<T>(items.drop_last(), item);
        let whole = sorting::placed::<T>(items, item);
        assert(whole == front.push(items.last()));
        assert forall|i: int| 0 <= i < whole.len() implies test(#[trigger] whole[i]) by {
            if i < front.len() {
                assert(test(front[i]));
            }
        }
    } else {
        let whole = items.push(item);
        assert forall|i: int| 0 <= i < whole.len() implies test(#[trigger] whole[i]) by {
            if i < items.len() {
                assert(test(items[i]));
            }
        }
    }
}

/// The kinds of finding that the log alone can settle.
pub open spec fn settled_kind(kind: Seq<char>) -> bool {
    kind == "missing"@ || kind == "orphan"@ || kind == "finished"@
}

pub struct Settled;

pub open spec fn settled() -> spec_fn(FindingView) -> bool {
    |f: FindingView| settled_kind(f.kind)
}

impl Test<ReconcileFinding> for Settled {
    open spec fn test(&self) -> spec_fn(FindingView) -> bool {
        settled()
    }

    fn passes(&self, item: &ReconcileFinding) -> (passes: bool) {
        let kind = item.kind.as_str();
        same_text(kind, "missing") || same_text(kind, "orphan") || same_text(kind, "finished")
    }
}

/// What wants attention: what the reconciliation found, as far as the log alone
/// can tell, and the blocks to be reviewed.
pub open spec fn attention(
    s: StateView,
    reconciled: Seq<FindingView>,
    now: Instant,
) -> Seq<FindingView> {
    reconciled.filter(settled()) + expiries(s, now)
}

pub open spec fn asked(s: StateView) -> Seq<QuestionView> {
    sorting::sorted::<Question>(selection::values::<String, QuestionView>(s.questions))
}

pub open spec fn open_question(s: StateView) -> spec_fn(QuestionView) -> bool {
    |q: QuestionView| q.answer is None && rules::stranded_by(s, q) is None
}

/// Questions that somebody waits for: not answered, and not stranded.
pub struct OpenQuestion<'a> {
    pub state: &'a ProjectState,
}

impl<'a> Test<Question> for OpenQuestion<'a> {
    open spec fn test(&self) -> spec_fn(QuestionView) -> bool {
        open_question(self.state@)
    }

    fn passes(&self, item: &Question) -> (passes: bool) {
        item.answer.is_none() && self.state.stranded(item).is_none()
    }
}

pub open spec fn answered_and_blocked(s: StateView) -> spec_fn(QuestionView) -> bool {
    |q: QuestionView|
        q.answer is Some && s.work.contains_key(q.work_id) && s.work[q.work_id].state is Blocked
}

/// Questions with an answer whose work is still blocked.
pub struct AnsweredAndBlocked<'a> {
    pub state: &'a ProjectState,
}

impl<'a> Test<Question> for AnsweredAndBlocked<'a> {
    open spec fn test(&self) -> spec_fn(QuestionView) -> bool {
        answered_and_blocked(self.state@)
    }

    fn passes(&self, item: &Question) -> (passes: bool) {
        if item.answer.is_none() {
            return false;
        }
        match self.state.work.get(item.work_id.as_str()) {
            Some(work) => work.state == WorkState::Blocked,
            None => false,
        }
    }
}

/// The sections of the status.
pub struct Board {
    pub attention: Vec<ReconcileFinding>,
    pub in_flight: Vec<Attempt>,
    pub ready: Vec<Work>,
    pub questions: Vec<Question>,
    pub waiting: Vec<Question>,
    pub answered: Vec<Question>,
    pub blocked: Vec<Work>,
}

#[verifier::ext_equal]
pub struct BoardView {
    pub attention: Seq<FindingView>,
    pub in_flight: Seq<AttemptView>,
    pub ready: Seq<WorkView>,
    pub questions: Seq<QuestionView>,
    pub waiting: Seq<QuestionView>,
    pub answered: Seq<QuestionView>,
    pub blocked: Seq<WorkView>,
}

impl View for Board {
    type V = BoardView;

    open spec fn view(&self) -> BoardView {
        BoardView {
            attention: views::views(self.attention@),
            in_flight: views::views(self.in_flight@),
            ready: views::views(self.ready@),
            questions: views::views(self.questions@),
            waiting: views::views(self.waiting@),
            answered: views::views(self.answered@),
            blocked: views::views(self.blocked@),
        }
    }
}

pub open spec fn board(s: StateView, reconciled: Seq<FindingView>, now: Instant) -> BoardView {
    BoardView {
        attention: attention(s, reconciled, now),
        in_flight: in_flight(s),
        ready: rules::ready_work(s),
        questions: asked(s),
        waiting: asked(s).filter(open_question(s)),
        answered: asked(s).filter(answered_and_blocked(s)),
        blocked: blocked_work(s),
    }
}

/// Copies of the work that can be started, best first.
pub fn ready_items(state: &ProjectState) -> (items: Vec<Work>)
    ensures
        views::views(items@) == rules::ready_work(state@),
{
    let ready = state.ready();
    let ghost all = views::views(ready@);
    let mut items: Vec<Work> = Vec::new();
    let mut index: usize = 0;
    while index < ready.len()
        invariant
            index <= ready@.len(),
            all == views::views(ready@),
            items@.len() == index,
            forall|i: int| 0 <= i < index ==> (#[trigger] items@[i])@ == all[i],
        decreases ready@.len() - index,
    {
        items.push(ready[index].replica());
        index += 1;
    }
    assert(views::views(items@) =~= all);
    items
}

pub fn pack(state: &ProjectState, reconciled: &Vec<ReconcileFinding>, now: Instant) -> (sections:
    Board)
    ensures
        sections@ == board(state@, views::views(reconciled@), now),
{
    let mut findings = chosen(reconciled, &Settled);
    let ghost first = views::views(findings@);
    let mut expired_blocks = expired_block_findings(state, now);
    let ghost second = views::views(expired_blocks@);
    findings.append(&mut expired_blocks);
    assert(views::views(findings@) =~= first + second);
    let questions = sort(values_of(&state.questions));
    let waiting = chosen(&questions, &OpenQuestion { state });
    let answered = chosen(&questions, &AnsweredAndBlocked { state });
    let all_work = values_of(&state.work);
    Board {
        attention: findings,
        in_flight: in_flight_attempts(state),
        ready: ready_items(state),
        questions,
        waiting,
        answered,
        blocked: sort(chosen(&all_work, &IsBlocked)),
    }
}

// ---- the document ----

/// All sections, in the order they are shown in.
pub open spec fn all_sections() -> Seq<StatusSection> {
    seq![
        StatusSection::Attention,
        StatusSection::InFlight,
        StatusSection::Ready,
        StatusSection::WaitingOnHuman,
        StatusSection::Blocked,
    ]
}

pub open spec fn selected(requested: Seq<StatusSection>) -> Seq<StatusSection> {
    all_sections().filter(|s: StatusSection| requested.contains(s))
}

fn is_requested(requested: &[StatusSection], section: StatusSection) -> (is: bool)
    ensures
        is == requested@.contains(section),
{
    let mut index: usize = 0;
    while index < requested.len()
        invariant
            index <= requested@.len(),
            forall|i: int| 0 <= i < index ==> #[trigger] requested@[i] != section,
        decreases requested@.len() - index,
    {
        if requested[index] == section {
            return true;
        }
        index += 1;
    }
    false
}

/// The requested sections, each once and in the order they are shown in.
pub fn selected_status_sections(requested: &[StatusSection]) -> (sections: Vec<StatusSection>)
    ensures
        sections@ == selected(requested@),
{
    let every = [
        StatusSection::Attention,
        StatusSection::InFlight,
        StatusSection::Ready,
        StatusSection::WaitingOnHuman,
        StatusSection::Blocked,
    ];
    let ghost test = |s: StatusSection| requested@.contains(s);
    let mut sections: Vec<StatusSection> = Vec::new();
    assert(every@ =~= all_sections());
    let mut index: usize = 0;
    proof {
        reveal(Seq::filter);
        assert(sections@ =~= every@.take(0).filter(test));
    }
    while index < 5
        invariant
            index <= 5,
            every@.len() == 5,
            test == (|s: StatusSection| requested@.contains(s)),
            sections@ == every@.take(index as int).filter(test),
        decreases 5 - index,
    {
        proof {
            reveal(Seq::filter);
            assert(every@.take(index + 1).drop_last() =~= every@.take(index as int));
            assert(every@.take(index + 1).last() == every@[index as int]);
        }
        if is_requested(requested, every[index]) {
            sections.push(every[index]);
        }
        index += 1;
    }
    assert(every@.take(5) =~= every@);
    sections
}

/// The part that every status answer has: where the log stands, and the loop.
pub open spec fn status_base(
    s: StateView,
    head: HeadView,
    hypothetical: bool,
    source: Option<Seq<char>>,
) -> JsonView {
    json::empty_object().with("head"@, JsonView::Int(head.seq as int)).with(
        "hypothetical"@,
        JsonView::Bool(hypothetical),
    ).with("loop"@, documents::loop_document(s)).with(
        "revision"@,
        json::text_or_null(head.revision),
    ).with("schema"@, JsonView::Text("alder.status.v0"@)).with("source"@, json::text_or_null(source))
}

pub fn status_document(
    state: &ProjectState,
    head: &Head,
    hypothetical: bool,
    source: &Option<String>,
) -> (document: Json)
    ensures
        document@ == status_base(state@, head@, hypothetical, views::opt_view(*source)),
{
    Json::object().with("head", Json::number(head.sequence())).with(
        "hypothetical",
        Json::Bool(hypothetical),
    ).with("loop", loop_section(state)).with("revision", Json::optional_text(&head.revision)).with(
        "schema",
        Json::text("alder.status.v0"),
    ).with("source", Json::optional_text(source))
}

/// A section in full.
pub open spec fn section_json(b: BoardView, section: StatusSection) -> JsonView {
    match section {
        StatusSection::Attention => wire::list_json::<ReconcileFinding>(b.attention),
        StatusSection::InFlight => wire::list_json::<Attempt>(b.in_flight),
        StatusSection::Ready => wire::list_json::<Work>(b.ready),
        StatusSection::WaitingOnHuman => wire::list_json::<Question>(b.waiting),
        StatusSection::Blocked => wire::list_json::<Work>(b.blocked),
    }
}

fn section_document(sections: &Board, section: StatusSection) -> (document: Json)
    ensures
        document@ == section_json(sections@, section),
{
    match section {
        StatusSection::Attention => list_to_json(&sections.attention),
        StatusSection::InFlight => list_to_json(&sections.in_flight),
        StatusSection::Ready => list_to_json(&sections.ready),
        StatusSection::WaitingOnHuman => list_to_json(&sections.waiting),
        StatusSection::Blocked => list_to_json(&sections.blocked),
    }
}

pub open spec fn with_sections(
    document: JsonView,
    b: BoardView,
    sections: Seq<StatusSection>,
) -> JsonView
    decreases sections.len(),
{
    if sections.len() == 0 {
        document
    } else {
        with_sections(document, b, sections.drop_last()).with(
            sections.last().key(),
            section_json(b, sections.last()),
        )
    }
}

pub open spec fn count_of(b: BoardView, section: StatusSection) -> nat {
    match section {
        StatusSection::Attention => b.attention.len(),
        StatusSection::InFlight => b.in_flight.len(),
        StatusSection::Ready => b.ready.len(),
        StatusSection::WaitingOnHuman => b.waiting.len(),
        StatusSection::Blocked => b.blocked.len(),
    }
}

pub open spec fn counts(b: BoardView) -> JsonView {
    json::empty_object().with("attention"@, JsonView::Int(b.attention.len() as int)).with(
        "blocked"@,
        JsonView::Int(b.blocked.len() as int),
    ).with("in_flight"@, JsonView::Int(b.in_flight.len() as int)).with(
        "ready"@,
        JsonView::Int(b.ready.len() as int),
    ).with("waiting_on_human"@, JsonView::Int(b.waiting.len() as int))
}

/// The count of a section, under the key that the section itself is shown under,
/// is the number of its entries.
pub proof fn counts_are_those_of_the_sections(b: BoardView, section: StatusSection)
    ensures
        counts(b).member(section.key()) == Some(JsonView::Int(count_of(b, section) as int)),
        section_json(b, section) is List,
        section_json(b, section)->List_0.len() == count_of(b, section),
{
    reveal_strlit("attention");
    assert("attention"@.len() == 9);
    reveal_strlit("blocked");
    assert("blocked"@.len() == 7);
    reveal_strlit("in_flight");
    assert("in_flight"@.len() == 9);
    assert("attention"@[0] != "in_flight"@[0]);
    reveal_strlit("ready");
    assert("ready"@.len() == 5);
    reveal_strlit("waiting_on_human");
    assert("waiting_on_human"@.len() == 16);
    let key = section.key();
    let none = json::empty_object();
    assert(none.member(key) is None);
    let one = none.with("attention"@, JsonView::Int(b.attention.len() as int));
    let two = one.with("blocked"@, JsonView::Int(b.blocked.len() as int));
    let three = two.with("in_flight"@, JsonView::Int(b.in_flight.len() as int));
    let four = three.with("ready"@, JsonView::Int(b.ready.len() as int));
    json::member_of_extended(none, "attention"@, JsonView::Int(b.attention.len() as int), key);
    json::member_of_extended(one, "blocked"@, JsonView::Int(b.blocked.len() as int), key);
    json::member_of_extended(two, "in_flight"@, JsonView::Int(b.in_flight.len() as int), key);
    json::member_of_extended(three, "ready"@, JsonView::Int(b.ready.len() as int), key);
    json::member_of_extended(
        four,
        "waiting_on_human"@,
        JsonView::Int(b.waiting.len() as int),
        key,
    );
}

/// Everything the status is about.
#[verifier::ext_equal]
pub struct SceneView {
    pub state: StateView,
    pub head: HeadView,
    pub hypothetical: bool,
    pub source: Option<Seq<char>>,
    pub events: Seq<EventView>,
}

/// The status document: the base, the observations, all questions and the counts,
/// and the sections asked for; in full, every section and the last events.
pub open spec fn status_json(
    scene: SceneView,
    b: BoardView,
    full: bool,
    requested: Seq<StatusSection>,
) -> JsonView {
    let base = status_base(scene.state, scene.head, scene.hypothetical, scene.source).with(
        "observations"@,
        json::empty_object().with(
            "snapshot"@,
            wire::list_json::<Observation>(
                selection::values::<ObservationKey, ObservationView>(scene.state.observations),
            ),
        ),
    ).with("questions"@, documents::question_documents(scene.state, b.questions)).with(
        "counts"@,
        counts(b),
    );
    if full {
        with_sections(base, b, all_sections()).with(
            "recent_events"@,
            documents::summaries(documents::recent(scene.events)),
        )
    } else {
        with_sections(base, b, selected(requested))
    }
}

fn add_sections(document: Json, sections: &Board, picked: &Vec<StatusSection>) -> (whole: Json)
    ensures
        whole@ == with_sections(document@, sections@, picked@),
{
    let ghost start = document@;
    let mut whole = document;
    let mut index: usize = 0;
    assert(picked@.take(0) =~= Seq::<StatusSection>::empty());
    while index < picked.len()
        invariant
            index <= picked@.len(),
            whole@ == with_sections(start, sections@, picked@.take(index as int)),
        decreases picked@.len() - index,
    {
        assert(picked@.take(index + 1).drop_last() =~= picked@.take(index as int));
        whole = whole.with(picked[index].as_str(), section_document(sections, picked[index]));
        index += 1;
    }
    assert(picked@.take(index as int) =~= picked@);
    whole
}

fn every_section() -> (sections: Vec<StatusSection>)
    ensures
        sections@ == all_sections(),
{
    let mut sections: Vec<StatusSection> = Vec::new();
    sections.push(StatusSection::Attention);
    sections.push(StatusSection::InFlight);
    sections.push(StatusSection::Ready);
    sections.push(StatusSection::WaitingOnHuman);
    sections.push(StatusSection::Blocked);
    assert(sections@ =~= all_sections());
    sections
}

// ---- the lines ----

/// Lines with one more section: a blank line, the title, and the entries, set in.
/// A section without entries is left out.
pub open spec fn with_section(
    lines: Seq<Seq<char>>,
    title: Seq<char>,
    entries: Seq<Seq<char>>,
) -> Seq<Seq<char>> {
    if entries.len() == 0 {
        lines
    } else {
        lines.push(Seq::empty()).push(title) + entries.map_values(|e: Seq<char>| "  "@ + e)
    }
}

pub fn human_section(lines: &mut Vec<String>, title: &str, entries: Vec<String>)
    ensures
        views::views(final(lines)@) == with_section(
            views::views(old(lines)@),
            title@,
            views::views(entries@),
        ),
{
    if entries.len() == 0 {
        return;
    }
    let ghost start = views::views(lines@);
    lines.push(String::new());
    lines.push(title.to_owned());
    let ghost set_in = views::views(entries@).map_values(|e: Seq<char>| "  "@ + e);
    let ghost headed = start.push(Seq::empty()).push(title@);
    let mut index: usize = 0;
    assert(views::views(lines@) =~= headed + set_in.take(0));
    while index < entries.len()
        invariant
            index <= entries@.len(),
            set_in == views::views(entries@).map_values(|e: Seq<char>| "  "@ + e),
            views::views(lines@) == headed + set_in.take(index as int),
        decreases entries@.len() - index,
    {
        let ghost before = views::views(lines@);
        lines.push(joined("  ", entries[index].as_str()));
        assert(views::views(lines@) =~= before.push(set_in[index as int]));
        assert(headed + set_in.take(index + 1) =~= (headed + set_in.take(index as int)).push(
            set_in[index as int],
        ));
        index += 1;
    }
    assert(set_in.take(index as int) =~= set_in);
}

pub open spec fn or_text(value: Option<Seq<char>>, otherwise: Seq<char>) -> Seq<char> {
    match value {
        Some(text) => text,
        None => otherwise,
    }
}

pub fn text_or(value: &Option<String>, otherwise: &str) -> (text: String)
    ensures
        text@ == or_text(views::opt_view(*value), otherwise@),
{
    match value {
        Some(text) => text.clone(),
        None => otherwise.to_owned(),
    }
}

/// Whom a finding is about.
pub open spec fn finding_subject(finding: FindingView) -> Seq<char> {
    match finding.attempt_id {
        Some(id) => id,
        None => or_text(finding.handle, "-"@),
    }
}

pub struct FindingLine;

pub open spec fn finding_line() -> spec_fn(FindingView) -> Seq<char> {
    |f: FindingView| finding_subject(f) + "  "@ + f.detail
}

impl Tell<ReconcileFinding> for FindingLine {
    open spec fn line(&self) -> spec_fn(FindingView) -> Seq<char> {
        finding_line()
    }

    fn tell(&self, item: &ReconcileFinding) -> (line: String) {
        let subject = match &item.attempt_id {
            Some(id) => id.clone(),
            None => text_or(&item.handle, "-"),
        };
        joined3(subject.as_str(), "  ", item.detail.as_str())
    }
}

/// What an observer says about whether an attempt is alive.
pub open spec fn liveness_of(attempt_id: Seq<char>) -> spec_fn(ObservationView) -> bool {
    |o: ObservationView| o.key.field == "liveness"@ && o.key.subject == attempt_id
}

/// The last of those that were reported last.
pub open spec fn newest(observations: Seq<ObservationView>) -> Option<ObservationView>
    decreases observations.len(),
{
    if observations.len() == 0 {
        None
    } else {
        match newest(observations.drop_last()) {
            None => Some(observations.last()),
            Some(best) => if best.reported_seq <= observations.last().reported_seq {
                Some(observations.last())
            } else {
                Some(best)
            },
        }
    }
}

/// The newest level that was reported about whether an attempt is alive, whoever
/// reported it.
pub open spec fn liveness(s: StateView, attempt_id: Seq<char>) -> Option<Seq<char>> {
    match newest(
        selection::values::<ObservationKey, ObservationView>(s.observations).filter(
            liveness_of(attempt_id),
        ),
    ) {
        Some(observation) => Some(observation.level),
        None => None,
    }
}

pub struct LivenessOf<'a> {
    pub attempt_id: &'a str,
}

impl<'a> Test<Observation> for LivenessOf<'a> {
    open spec fn test(&self) -> spec_fn(ObservationView) -> bool {
        liveness_of(self.attempt_id@)
    }

    fn passes(&self, item: &Observation) -> (passes: bool) {
        same_text(item.key.field.as_str(), "liveness") && same_text(
            item.key.subject.as_str(),
            self.attempt_id,
        )
    }
}

pub fn liveness_level(state: &ProjectState, attempt_id: &str) -> (level: Option<String>)
    ensures
        views::opt_view(level) == liveness(state@, attempt_id@),
{
    let all = values_of(&state.observations);
    let found = chosen(&all, &LivenessOf { attempt_id });
    let ghost items = views::views(found@);
    let mut best: Option<usize> = None;
    let mut index: usize = 0;
    assert(items.take(0) =~= Seq::<ObservationView>::empty());
    while index < found.len()
        invariant
            index <= found@.len(),
            items == views::views(found@),
            best matches Some(at) ==> at < index,
            newest(items.take(index as int)) == (match best {
                Some(at) => Some(items[at as int]),
                None => None,
            }),
        decreases found@.len() - index,
    {
        assert(items.take(index + 1).drop_last() =~= items.take(index as int));
        assert(items.take(index + 1).last() == found@[index as int]@);
        match best {
            None => {
                best = Some(index);
            },
            Some(at) => {
                if found[at].reported_seq <= found[index].reported_seq {
                    best = Some(index);
                }
            },
        }
        index += 1;
    }
    assert(items.take(index as int) =~= items);
    match best {
        Some(at) => Some(found[at].level.clone()),
        None => None,
    }
}

pub struct AttemptLine<'a> {
    pub state: &'a ProjectState,
}

pub open spec fn attempt_line(s: StateView) -> spec_fn(AttemptView) -> Seq<char> {
    |a: AttemptView|
        a.work_id + "  "@ + a.id + "  "@ + or_text(a.handle, "unbound"@) + "  "@ + or_text(
            liveness(s, a.id),
            "unknown"@,
        )
}

impl<'a> Tell<Attempt> for AttemptLine<'a> {
    open spec fn line(&self) -> spec_fn(AttemptView) -> Seq<char> {
        attempt_line(self.state@)
    }

    fn tell(&self, item: &Attempt) -> (line: String) {
        let level = liveness_level(self.state, item.id.as_str());
        joined5(
            item.work_id.as_str(),
            "  ",
            item.id.as_str(),
            "  ",
            text_or(&item.handle, "unbound").as_str(),
        ).concat("  ").concat(text_or(&level, "unknown").as_str())
    }
}

pub struct ReadyLine;

pub open spec fn ready_line() -> spec_fn(WorkView) -> Seq<char> {
    |w: WorkView| w.id + "  "@ + w.title + "  priority "@ + text::signed(w.priority as int)
}

impl Tell<Work> for ReadyLine {
    open spec fn line(&self) -> spec_fn(WorkView) -> Seq<char> {
        ready_line()
    }

    fn tell(&self, item: &Work) -> (line: String) {
        joined5(
            item.id.as_str(),
            "  ",
            item.title.as_str(),
            "  priority ",
            signed_text(item.priority).as_str(),
        )
    }
}

pub struct QuestionLine;

pub open spec fn question_line() -> spec_fn(QuestionView) -> Seq<char> {
    |q: QuestionView| q.id + "  "@ + q.text
}

impl Tell<Question> for QuestionLine {
    open spec fn line(&self) -> spec_fn(QuestionView) -> Seq<char> {
        question_line()
    }

    fn tell(&self, item: &Question) -> (line: String) {
        joined3(item.id.as_str(), "  ", item.text.as_str())
    }
}

pub struct AnswerLine;

pub open spec fn answer_line() -> spec_fn(QuestionView) -> Seq<char> {
    |q: QuestionView|
        q.id + "  "@ + q.work_id + "  answer: "@ + or_text(q.answer, Seq::empty())
}

impl Tell<Question> for AnswerLine {
    open spec fn line(&self) -> spec_fn(QuestionView) -> Seq<char> {
        answer_line()
    }

    fn tell(&self, item: &Question) -> (line: String) {
        let nothing = String::new();
        let answer = text_or(&item.answer, nothing.as_str());
        joined5(item.id.as_str(), "  ", item.work_id.as_str(), "  answer: ", answer.as_str())
    }
}

pub struct BlockedLine;

pub open spec fn blocked_line() -> spec_fn(WorkView) -> Seq<char> {
    |w: WorkView|
        {
            let line = w.id + "  "@ + or_text(w.block_reason, "blocked"@);
            match w.block_until {
                Some(until) => line + " · until "@ + until.shown(),
                None => line,
            }
        }
}

impl Tell<Work> for BlockedLine {
    open spec fn line(&self) -> spec_fn(WorkView) -> Seq<char> {
        blocked_line()
    }

    fn tell(&self, item: &Work) -> (line: String) {
        let line = joined3(
            item.id.as_str(),
            "  ",
            text_or(&item.block_reason, "blocked").as_str(),
        );
        match item.block_until {
            Some(until) => line.concat(" · until ").concat(until.to_rfc3339().as_str()),
            None => line,
        }
    }
}

pub open spec fn section_title(section: StatusSection) -> Seq<char> {
    match section {
        StatusSection::Attention => "attention"@,
        StatusSection::InFlight => "in flight"@,
        StatusSection::Ready => "ready"@,
        StatusSection::WaitingOnHuman => "waiting on human"@,
        StatusSection::Blocked => "blocked"@,
    }
}

fn title_of(section: StatusSection) -> (title: &'static str)
    ensures
        title@ == section_title(section),
{
    match section {
        StatusSection::Attention => "attention",
        StatusSection::InFlight => "in flight",
        StatusSection::Ready => "ready",
        StatusSection::WaitingOnHuman => "waiting on human",
        StatusSection::Blocked => "blocked",
    }
}

pub open spec fn section_lines(s: StateView, b: BoardView, section: StatusSection) -> Seq<
    Seq<char>,
> {
    match section {
        StatusSection::Attention => b.attention.map_values(finding_line()),
        StatusSection::InFlight => b.in_flight.map_values(attempt_line(s)),
        StatusSection::Ready => b.ready.map_values(ready_line()),
        StatusSection::WaitingOnHuman => b.waiting.map_values(question_line()),
        StatusSection::Blocked => b.blocked.map_values(blocked_line()),
    }
}

fn lines_in(state: &ProjectState, sections: &Board, section: StatusSection) -> (lines: Vec<String>)
    ensures
        views::views(lines@) == section_lines(state@, sections@, section),
{
    match section {
        StatusSection::Attention => lines_of(&sections.attention, &FindingLine),
        StatusSection::InFlight => lines_of(&sections.in_flight, &AttemptLine { state }),
        StatusSection::Ready => lines_of(&sections.ready, &ReadyLine),
        StatusSection::WaitingOnHuman => lines_of(&sections.waiting, &QuestionLine),
        StatusSection::Blocked => lines_of(&sections.blocked, &BlockedLine),
    }
}

pub open spec fn sections_told(
    lines: Seq<Seq<char>>,
    s: StateView,
    b: BoardView,
    sections: Seq<StatusSection>,
) -> Seq<Seq<char>>
    decreases sections.len(),
{
    if sections.len() == 0 {
        lines
    } else {
        with_section(
            sections_told(lines, s, b, sections.drop_last()),
            section_title(sections.last()),
            section_lines(s, b, sections.last()),
        )
    }
}

fn tell_sections(
    lines: &mut Vec<String>,
    state: &ProjectState,
    sections: &Board,
    picked: &Vec<StatusSection>,
)
    ensures
        views::views(final(lines)@) == sections_told(
            views::views(old(lines)@),
            state@,
            sections@,
            picked@,
        ),
{
    let ghost start = views::views(lines@);
    let mut index: usize = 0;
    assert(picked@.take(0) =~= Seq::<StatusSection>::empty());
    while index < picked.len()
        invariant
            index <= picked@.len(),
            views::views(lines@) == sections_told(
                start,
                state@,
                sections@,
                picked@.take(index as int),
            ),
        decreases picked@.len() - index,
    {
        assert(picked@.take(index + 1).drop_last() =~= picked@.take(index as int));
        let entries = lines_in(state, sections, picked[index]);
        human_section(lines, title_of(picked[index]), entries);
        index += 1;
    }
    assert(picked@.take(index as int) =~= picked@);
}

pub open spec fn count_line(b: BoardView, section: StatusSection) -> Seq<char> {
    section_title(section) + "  "@ + text::decimal(count_of(b, section))
}

pub open spec fn count_lines(b: BoardView) -> Seq<Seq<char>> {
    all_sections().map_values(|s: StatusSection| count_line(b, s))
}

/// The first line: where the log stands, or what was laid over it.
pub open spec fn heading(head: HeadView, hypothetical: bool, source: Option<Seq<char>>) -> Seq<
    char,
> {
    if hypothetical {
        "hypothetical · based on head "@ + text::decimal(head.seq as nat) + " · "@ + or_text(
            source,
            Seq::empty(),
        ) + " · not written"@
    } else {
        "head "@ + text::decimal(head.seq as nat)
    }
}

pub fn heading_line(head: &Head, hypothetical: bool, source: &Option<String>) -> (line: String)
    ensures
        line@ == heading(head@, hypothetical, views::opt_view(*source)),
{
    if hypothetical {
        let nothing = String::new();
        joined5(
            "hypothetical · based on head ",
            decimal_text(head.sequence()).as_str(),
            " · ",
            text_or(source, nothing.as_str()).as_str(),
            " · not written",
        )
    } else {
        joined("head ", decimal_text(head.sequence()).as_str())
    }
}

pub open spec fn status_told(
    scene: SceneView,
    b: BoardView,
    full: bool,
    requested: Seq<StatusSection>,
) -> Seq<Seq<char>> {
    let start = with_section(
        seq![heading(scene.head, scene.hypothetical, scene.source)],
        "loop"@,
        documents::loop_told(scene.state),
    );
    if full {
        let four = sections_told(start, scene.state, b, all_sections().take(4));
        with_section(
            with_section(
                four,
                "answered questions still blocked"@,
                b.answered.map_values(answer_line()),
            ),
            "blocked"@,
            section_lines(scene.state, b, StatusSection::Blocked),
        )
    } else if requested.len() > 0 {
        sections_told(start, scene.state, b, selected(requested))
    } else {
        with_section(start, "counts"@, count_lines(b))
    }
}

fn counts_document(sections: &Board) -> (document: Json)
    ensures
        document@ == counts(sections@),
{
    Json::object().with("attention", Json::number(sections.attention.len() as u64)).with(
        "blocked",
        Json::number(sections.blocked.len() as u64),
    ).with("in_flight", Json::number(sections.in_flight.len() as u64)).with(
        "ready",
        Json::number(sections.ready.len() as u64),
    ).with("waiting_on_human", Json::number(sections.waiting.len() as u64))
}

fn counts_told(sections: &Board) -> (lines: Vec<String>)
    ensures
        views::views(lines@) == count_lines(sections@),
{
    let mut lines: Vec<String> = Vec::new();
    lines.push(joined("attention  ", decimal_text(sections.attention.len() as u64).as_str()));
    lines.push(joined("in flight  ", decimal_text(sections.in_flight.len() as u64).as_str()));
    lines.push(joined("ready  ", decimal_text(sections.ready.len() as u64).as_str()));
    lines.push(joined("waiting on human  ", decimal_text(sections.waiting.len() as u64).as_str()));
    lines.push(joined("blocked  ", decimal_text(sections.blocked.len() as u64).as_str()));
    proof {
        reveal_strlit("  ");
        reveal_strlit("attention");
        reveal_strlit("attention  ");
        reveal_strlit("in flight");
        reveal_strlit("in flight  ");
        reveal_strlit("ready");
        reveal_strlit("ready  ");
        reveal_strlit("waiting on human");
        reveal_strlit("waiting on human  ");
        reveal_strlit("blocked");
        reveal_strlit("blocked  ");
        assert("attention"@ + "  "@ =~= "attention  "@);
        assert("in flight"@ + "  "@ =~= "in flight  "@);
        assert("ready"@ + "  "@ =~= "ready  "@);
        assert("waiting on human"@ + "  "@ =~= "waiting on human  "@);
        assert("blocked"@ + "  "@ =~= "blocked  "@);
        let told = views::views(lines@);
        assert(told.len() == 5);
        assert(told[0] == count_line(sections@, StatusSection::Attention));
        assert(told[1] == count_line(sections@, StatusSection::InFlight));
        assert(told[2] == count_line(sections@, StatusSection::Ready));
        assert(told[3] == count_line(sections@, StatusSection::WaitingOnHuman));
        assert(told[4] == count_line(sections@, StatusSection::Blocked));
        assert(told =~= count_lines(sections@));
    }
    lines
}

// ---- laying a change over the project ----

/// A graph change to look at without writing it, and where it came from.
pub struct Overlay {
    pub source: String,
    pub document: GraphChangeDocument,
}

/// The name that an addition has as long as it is not written.
pub open spec fn made_up_id(add: AddWorkInputView, index: int) -> Seq<char> {
    match add.local {
        Some(local) => "$"@ + local,
        None => "$"@ + ("new-"@ + text::decimal((index + 1) as nat)),
    }
}

pub open spec fn made_up_ids(additions: Seq<AddWorkInputView>) -> Seq<Seq<char>> {
    Seq::new(additions.len(), |i: int| made_up_id(additions[i], i))
}

fn hypothetical_ids(additions: &Vec<AddWorkInput>) -> (ids: Vec<String>)
    ensures
        views::views(ids@) == made_up_ids(views::views(additions@)),
{
    let mut ids: Vec<String> = Vec::new();
    let mut index: usize = 0;
    while index < additions.len()
        invariant
            index <= additions@.len(),
            ids@.len() == index,
            forall|i: int|
                0 <= i < index ==> (#[trigger] ids@[i])@ == made_up_id(additions@[i]@, i),
        decreases additions@.len() - index,
    {
        let id = match &additions[index].local {
            Some(local) => joined("$", local.as_str()),
            None => joined(
                "$",
                joined("new-", decimal_text((index + 1) as u64).as_str()).as_str(),
            ),
        };
        ids.push(id);
        index += 1;
    }
    assert(views::views(ids@) =~= made_up_ids(views::views(additions@)));
    ids
}

/// The project as it would be with the change, at the next place of the log.
pub open spec fn hypothetical_state(
    snapshot: SnapshotView,
    document: GraphChangeDocumentView,
) -> core::result::Result<StateView, ErrorView> {
    match change::prepared(
        snapshot.state,
        document,
        ChangeMode::Hypothetical,
        made_up_ids(document.add),
    ) {
        Err(error) => Err(error),
        Ok(change) => rules::change_work(
            snapshot.state,
            store::next_seq(snapshot.head.seq as nat),
            change.operations,
        ),
    }
}

/// The scene of a query: the project as it is, or with a change laid over it.
pub open spec fn scene(
    snapshot: SnapshotView,
    overlay: Option<(Seq<char>, GraphChangeDocumentView)>,
) -> core::result::Result<SceneView, ErrorView> {
    match overlay {
        None => Ok(
            SceneView {
                state: snapshot.state,
                head: snapshot.head,
                hypothetical: false,
                source: None,
                events: snapshot.events,
            },
        ),
        Some((source, document)) => match hypothetical_state(snapshot, document) {
            Err(error) => Err(error),
            Ok(state) => Ok(
                SceneView {
                    state,
                    head: snapshot.head,
                    hypothetical: true,
                    source: Some(source),
                    events: snapshot.events,
                },
            ),
        },
    }
}

pub open spec fn overlay_view(overlay: Option<&Overlay>) -> Option<
    (Seq<char>, GraphChangeDocumentView),
> {
    match overlay {
        Some(laid) => Some((laid.source@, laid.document@)),
        None => None,
    }
}

/// The state to answer from, whether it is made up, and what of.
pub fn overlay_state(snapshot: &Snapshot, overlay: Option<&Overlay>) -> (outcome: Result<
    (ProjectState, bool, Option<String>),
>)
    ensures
        match scene(snapshot@, overlay_view(overlay)) {
            Err(error) => outcome matches Err(e) && e@ == error,
            Ok(found) => outcome matches Ok((state, hypothetical, source)) && state@ == found.state
                && hypothetical == found.hypothetical && views::opt_view(source) == found.source,
        },
{
    let laid = match overlay {
        None => {
            return Ok((snapshot.state.replica(), false, None));
        },
        Some(laid) => laid,
    };
    let ids = hypothetical_ids(&laid.document.add);
    assert(views::views(ids@).len() == ids@.len());
    let prepared = match prepare_change(
        &snapshot.state,
        &laid.document,
        ChangeMode::Hypothetical,
        &ids,
    ) {
        Err(error) => {
            return Err(error);
        },
        Ok(prepared) => prepared,
    };
    let mut state = snapshot.state.replica();
    let event = Event {
        id: "hypothetical".to_owned(),
        seq: snapshot.head.sequence().saturating_add(1),
        at: Instant { seconds: 0, nanos: 0 },
        actor: "hypothetical".to_owned(),
        payload: EventPayload::Work(
            WorkEventPayload::WorkChanged {
                why: opt_replica(&laid.document.why),
                operations: prepared.operations,
            },
        ),
        schema: "alder.event.v0".to_owned(),
    };
    match state.apply(&event) {
        Err(error) => Err(error),
        Ok(_) => Ok((state, true, Some(laid.source.clone()))),
    }
}

// ---- the queries ----

pub open spec fn status_output(
    found: SceneView,
    b: BoardView,
    full: bool,
    requested: Seq<StatusSection>,
) -> OutputView {
    documents::shown(
        status_json(found, b, full, requested),
        text::together(status_told(found, b, full, requested), "\n"@),
    )
}

/// The status as of `now`, with what a reconciliation has found.
pub fn status_at(
    snapshot: &Snapshot,
    overlay: Option<&Overlay>,
    full: bool,
    requested: &[StatusSection],
    reconciled: &Vec<ReconcileFinding>,
    now: Instant,
) -> (outcome: Result<Output>)
    ensures
        match scene(snapshot@, overlay_view(overlay)) {
            Err(error) => outcome matches Err(e) && e@ == error,
            Ok(found) => outcome matches Ok(output) && output@ == status_output(
                found,
                board(found.state, views::views(reconciled@), now),
                full,
                requested@,
            ),
        },
{
    let (state, hypothetical, source) = match overlay_state(snapshot, overlay) {
        Err(error) => {
            return Err(error);
        },
        Ok(parts) => parts,
    };
    let sections = pack(&state, reconciled, now);
    let document = status_document(&state, &snapshot.head, hypothetical, &source).with(
        "observations",
        Json::object().with("snapshot", list_to_json(&values_of(&state.observations))),
    ).with("questions", question_values(&state, &sections.questions)).with(
        "counts",
        counts_document(&sections),
    );
    let document = if full {
        let every = every_section();
        let last = recent_events(&snapshot.events);
        add_sections(document, &sections, &every).with("recent_events", event_summaries(&last))
    } else {
        let picked = selected_status_sections(requested);
        add_sections(document, &sections, &picked)
    };
    let mut lines: Vec<String> = Vec::new();
    lines.push(heading_line(&snapshot.head, hypothetical, &source));
    assert(views::views(lines@) =~= seq![
        heading(snapshot@.head, hypothetical, views::opt_view(source)),
    ]);
    human_section(&mut lines, "loop", loop_lines(&state));
    if full {
        let mut four: Vec<StatusSection> = Vec::new();
        four.push(StatusSection::Attention);
        four.push(StatusSection::InFlight);
        four.push(StatusSection::Ready);
        four.push(StatusSection::WaitingOnHuman);
        assert(four@ =~= all_sections().take(4));
        tell_sections(&mut lines, &state, &sections, &four);
        human_section(
            &mut lines,
            "answered questions still blocked",
            lines_of(&sections.answered, &AnswerLine),
        );
        human_section(&mut lines, "blocked", lines_of(&sections.blocked, &BlockedLine));
    } else if requested.len() > 0 {
        let picked = selected_status_sections(requested);
        tell_sections(&mut lines, &state, &sections, &picked);
    } else {
        human_section(&mut lines, "counts", counts_told(&sections));
    }
    Ok(Output::new(document, join_texts(&lines, "\n")))
}

/// The status as of the moment that the clock shows.
pub fn status(
    snapshot: &Snapshot,
    overlay: Option<&Overlay>,
    full: bool,
    requested: &[StatusSection],
    reconciled: &Vec<ReconcileFinding>,
) -> (outcome: Result<Output>)
    ensures
        match scene(snapshot@, overlay_view(overlay)) {
            Err(error) => outcome matches Err(e) && e@ == error,
            Ok(found) => outcome matches Ok(output) && exists|now: Instant|
                output@ == status_output(
                    found,
                    #[trigger] board(found.state, views::views(reconciled@), now),
                    full,
                    requested@,
                ),
        },
{
    status_at(snapshot, overlay, full, requested, reconciled, Instant::now())
}

pub open spec fn next_output(found: SceneView) -> OutputView {
    documents::shown(
        json::empty_object().with("head"@, JsonView::Int(found.head.seq as int)).with(
            "hypothetical"@,
            JsonView::Bool(found.hypothetical),
        ).with("revision"@, json::text_or_null(found.head.revision)).with(
            "schema"@,
            JsonView::Text("alder.next.v0"@),
        ).with("source"@, json::text_or_null(found.source)).with(
            "work"@,
            wire::list_json::<Work>(rules::ready_work(found.state)),
        ),
        text::together(
            (if found.hypothetical {
                seq![heading(found.head, true, found.source)]
            } else {
                Seq::empty()
            }) + rules::ready_work(found.state).map_values(ready_line()),
            "\n"@,
        ),
    )
}

/// What can be started, best first.
pub fn next(snapshot: &Snapshot, overlay: Option<&Overlay>) -> (outcome: Result<Output>)
    ensures
        match scene(snapshot@, overlay_view(overlay)) {
            Err(error) => outcome matches Err(e) && e@ == error,
            Ok(found) => outcome matches Ok(output) && output@ == next_output(found),
        },
{
    let (state, hypothetical, source) = match overlay_state(snapshot, overlay) {
        Err(error) => {
            return Err(error);
        },
        Ok(parts) => parts,
    };
    let ready = ready_items(&state);
    let head = &snapshot.head;
    let document = Json::object().with("head", Json::number(head.sequence())).with(
        "hypothetical",
        Json::Bool(hypothetical),
    ).with("revision", Json::optional_text(&head.revision)).with(
        "schema",
        Json::text("alder.next.v0"),
    ).with("source", Json::optional_text(&source)).with("work", list_to_json(&ready));
    let mut lines: Vec<String> = Vec::new();
    if hypothetical {
        lines.push(heading_line(head, true, &source));
    }
    let ghost first = views::views(lines@);
    assert(first =~= if hypothetical {
        seq![heading(snapshot@.head, true, views::opt_view(source))]
    } else {
        Seq::<Seq<char>>::empty()
    });
    let mut more = lines_of(&ready, &ReadyLine);
    let ghost second = views::views(more@);
    lines.append(&mut more);
    assert(views::views(lines@) =~= first + second);
    Ok(Output::new(document, join_texts(&lines, "\n")))
}

} // verus!

//! What the sections of the status hold, in which order, and what its document says.

use vstd::prelude::*;

use crate::attempt::{Attempt, AttemptView};
use crate::change;
use crate::change::{ChangeMode, GraphChangeDocumentView};
use crate::cli::StatusSection;
use crate::document_laws;
use crate::documents;
use crate::documents::FindingView;
use crate::effect_laws;
use crate::event::{EventPayloadView, EventView, WorkEventPayloadView};
use crate::instant::Instant;
use crate::json;
use crate::json::JsonView;
use crate::laws;
use crate::log::SnapshotView;
use crate::log_laws;
use crate::observation::{Observation, ObservationKey, ObservationView};
use crate::project::StateView;
use crate::projection_laws;
use crate::projection_laws::has_value;
use crate::question::{Question, QuestionView};
use crate::rules;
use crate::selection;
use crate::sorting;
use crate::sorting::Ranked;
use crate::status;
use crate::status::{BoardView, SceneView};
use crate::wire;
use crate::work::{Work, WorkView};

verus! {

// ---- the last events ----

/// The recent ones are the end of the list: ten of them, or all where there are no more,
/// in the order of the list. The last of them is the last there is.
pub proof fn recent_ones_end_the_list<T>(items: Seq<T>)
    ensures
        documents::recent(items).len() == (if items.len() < 10 {
            items.len()
        } else {
            10
        }),
        forall|i: int|
            0 <= i < documents::recent(items).len() ==> #[trigger] documents::recent(items)[i]
                == items[items.len() - documents::recent(items).len() + i],
        items.len() > 0 ==> documents::recent(items).last() == items.last(),
{
}

// ---- choosing and sorting ----

/// What a list keeps of those that pass is what passes.
pub proof fn filtered_holds<T>(items: Seq<T>, test: spec_fn(T) -> bool, x: T)
    ensures
        items.filter(test).contains(x) <==> items.contains(x) && test(x),
    decreases items.len(),
{
    reveal(Seq::filter);
    if items.len() > 0 {
        let front = items.drop_last();
        filtered_holds(front, test, x);
        assert(items =~= front.push(items.last()));
        crate::change_laws::pushed_holds(front, items.last(), x);
        if test(items.last()) {
            crate::change_laws::pushed_holds(front.filter(test), items.last(), x);
        }
    }
}

proof fn filtered_keeps_apart<T>(items: Seq<T>, test: spec_fn(T) -> bool)
    requires
        items.no_duplicates(),
    ensures
        items.filter(test).no_duplicates(),
    decreases items.len(),
{
    reveal(Seq::filter);
    if items.len() > 0 {
        let front = items.drop_last();
        assert(front.no_duplicates());
        filtered_keeps_apart(front, test);
        let kept = front.filter(test);
        assert forall|i: int| 0 <= i < kept.len() implies kept[i] != items.last() by {
            assert(kept.contains(kept[i]));
            filtered_holds(front, test, kept[i]);
            assert(front.contains(kept[i]));
        }
    }
}

proof fn sorted_keeps_apart<T: Ranked>(items: Seq<T::V>)
    requires
        items.no_duplicates(),
        sorting::weak_order::<T>(),
    ensures
        sorting::sorted::<T>(items).no_duplicates(),
        sorting::in_order::<T>(sorting::sorted::<T>(items)),
{
    broadcast use vstd::seq_lib::group_to_multiset_ensures;

    let ordered = sorting::sorted::<T>(items);
    sorting::sorted_is_ordered_permutation::<T>(items);
    items.lemma_multiset_has_no_duplicates();
    assert forall|x: T::V|
        ordered.to_multiset().contains(x) implies ordered.to_multiset().count(x) == 1 by {
        assert(items.to_multiset().contains(x));
    }
    ordered.lemma_multiset_has_no_duplicates_conv();
}

/// Whether no two entries have one value.
pub open spec fn values_differ<T>(entries: Map<Seq<char>, T>) -> bool {
    forall|k: Seq<char>, l: Seq<char>|
        entries.contains_key(k) && entries.contains_key(l) && k != l ==> #[trigger] entries[k]
            != #[trigger] entries[l]
}

proof fn values_stand_apart<T>(entries: Map<Seq<char>, T>)
    requires
        entries.dom().finite(),
        values_differ(entries),
    ensures
        selection::values::<String, T>(entries).no_duplicates(),
{
    let keys = crate::catalog::listing::<String>(entries.dom());
    crate::catalog::listing_exists::<String>(entries.dom());
    crate::record_laws::ascending_texts_differ(keys);
    let all = selection::values::<String, T>(entries);
    assert forall|i: int, j: int| 0 <= i < all.len() && 0 <= j < all.len() && i != j implies all[i]
        != all[j] by {
        assert(keys.to_set().contains(keys[i]) && keys.to_set().contains(keys[j]));
        assert(keys[i] != keys[j]);
        assert(entries[keys[i]] != entries[keys[j]]);
    }
}

/// The entries that pass, sorted: each of them once, and in order.
proof fn chosen_ones_stand_in_order<T: Ranked>(
    entries: Map<Seq<char>, T::V>,
    test: spec_fn(T::V) -> bool,
)
    requires
        entries.dom().finite(),
        values_differ(entries),
        sorting::weak_order::<T>(),
    ensures
        ({
            let list = sorting::sorted::<T>(
                selection::values::<String, T::V>(entries).filter(test),
            );
            &&& forall|x: T::V| #[trigger] list.contains(x) <==> has_value(entries, x) && test(x)
            &&& list.no_duplicates()
            &&& sorting::in_order::<T>(list)
        }),
{
    let all = selection::values::<String, T::V>(entries);
    let list = sorting::sorted::<T>(all.filter(test));
    projection_laws::values_are_the_entries(entries);
    values_stand_apart(entries);
    filtered_keeps_apart(all, test);
    sorted_keeps_apart::<T>(all.filter(test));
    assert forall|x: T::V| #[trigger] list.contains(x) <==> has_value(entries, x) && test(x) by {
        effect_laws::sorted_holds::<T>(all.filter(test), x);
        filtered_holds(all, test, x);
    }
}

proof fn filtered_keeps_order<T: Ranked>(items: Seq<T::V>, test: spec_fn(T::V) -> bool)
    requires
        sorting::in_order::<T>(items),
    ensures
        sorting::in_order::<T>(items.filter(test)),
    decreases items.len(),
{
    reveal(Seq::filter);
    if items.len() > 0 {
        let front = items.drop_last();
        assert forall|i: int, j: int| 0 <= i < j < front.len() implies !#[trigger] T::ahead(
            front[j],
            front[i],
        ) by {
            assert(!T::ahead(items[j], items[i]));
        }
        filtered_keeps_order::<T>(front, test);
        let kept = front.filter(test);
        let whole = items.filter(test);
        assert forall|i: int, j: int| 0 <= i < j < whole.len() implies !#[trigger] T::ahead(
            whole[j],
            whole[i],
        ) by {
            if j < kept.len() {
                assert(!T::ahead(kept[j], kept[i]));
            } else {
                assert(kept.contains(kept[i]));
                filtered_holds(front, test, kept[i]);
                let n = choose|n: int| 0 <= n < front.len() && front[n] == kept[i];
                assert(!T::ahead(items[items.len() - 1], items[n]));
            }
        }
    }
}

// ---- the sections ----

/// In flight are the attempts that have not ended, each once, the first to start first.
pub proof fn in_flight_are_the_attempts_that_have_not_ended(s: StateView)
    requires
        laws::keyed(s),
    ensures
        ({
            let list = status::in_flight(s);
            &&& forall|a: AttemptView| #[trigger]
                list.contains(a) <==> has_value(s.attempts, a) && !(a.state is Ended)
            &&& list.no_duplicates()
            &&& forall|i: int, j: int|
                0 <= i < j < list.len() ==> (#[trigger] list[i]).started_seq <= (
                #[trigger] list[j]).started_seq
        }),
{
    assert(values_differ(s.attempts));
    assert(sorting::weak_order::<Attempt>());
    chosen_ones_stand_in_order::<Attempt>(s.attempts, status::running());
    let list = status::in_flight(s);
    assert forall|i: int, j: int| 0 <= i < j < list.len() implies (#[trigger] list[i]).started_seq
        <= (#[trigger] list[j]).started_seq by {
        assert(!<Attempt as Ranked>::ahead(list[j], list[i]));
    }
}

/// Blocked is the work in the state of that name, each item once, the first opened first.
pub proof fn blocked_is_the_blocked_work(s: StateView)
    requires
        laws::keyed(s),
    ensures
        ({
            let list = status::blocked_work(s);
            &&& forall|w: WorkView| #[trigger]
                list.contains(w) <==> has_value(s.work, w) && w.state is Blocked
            &&& list.no_duplicates()
            &&& forall|i: int, j: int|
                0 <= i < j < list.len() ==> (#[trigger] list[i]).opened_seq <= (
                #[trigger] list[j]).opened_seq
        }),
{
    assert(values_differ(s.work));
    assert(sorting::weak_order::<Work>());
    chosen_ones_stand_in_order::<Work>(s.work, status::is_blocked());
    let list = status::blocked_work(s);
    assert forall|i: int, j: int| 0 <= i < j < list.len() implies (#[trigger] list[i]).opened_seq
        <= (#[trigger] list[j]).opened_seq by {
        assert(!<Work as Ranked>::ahead(list[j], list[i]));
    }
}

/// Ready is the open work that nobody is at and whose requirements are all done. The higher
/// priority stands first, and of one priority what was opened first.
pub proof fn ready_is_the_work_that_can_start(s: StateView)
    requires
        laws::keyed(s),
        laws::one_attempt_each(s),
    ensures
        ({
            let list = rules::ready_work(s);
            &&& forall|w: WorkView| #[trigger]
                list.contains(w) <==> has_value(s.work, w) && w.state is Open && !effect_laws::busy(
                    s,
                    w.id,
                ) && effect_laws::met(s, w)
            &&& forall|i: int, j: int|
                0 <= i < j < list.len() ==> {
                    ||| (#[trigger] list[i]).priority > (#[trigger] list[j]).priority
                    ||| list[i].priority == list[j].priority && list[i].opened_seq
                        <= list[j].opened_seq
                }
        }),
{
    let list = rules::ready_work(s);
    log_laws::ready_work_is_known(s);
    assert forall|w: WorkView| #[trigger] list.contains(w) <==> has_value(s.work, w)
        && w.state is Open && !effect_laws::busy(s, w.id) && effect_laws::met(s, w) by {
        effect_laws::busy_is_active(s, w.id);
        if has_value(s.work, w) {
            let k = choose|k: Seq<char>| #[trigger] s.work.contains_key(k) && s.work[k] == w;
            assert(w.id == k);
            log_laws::ready_work_is_listed_best_first(s, k);
            effect_laws::met_is_all_done(s, w);
        }
    }
    assert forall|i: int, j: int| 0 <= i < j < list.len() implies {
        ||| (#[trigger] list[i]).priority > (#[trigger] list[j]).priority
        ||| list[i].priority == list[j].priority && list[i].opened_seq <= list[j].opened_seq
    } by {
        assert(!<&Work as Ranked>::ahead(list[j], list[i]));
    }
}

/// A human is waited for by the questions without an answer whose work is neither done nor
/// dropped, each once, the first asked first. The questions with an answer whose work is
/// blocked are told apart from them.
pub proof fn open_questions_wait_for_a_human(
    s: StateView,
    reconciled: Seq<FindingView>,
    now: Instant,
)
    requires
        laws::keyed(s),
    ensures
        ({
            let b = status::board(s, reconciled, now);
            &&& forall|q: QuestionView| #[trigger]
                b.waiting.contains(q) <==> has_value(s.questions, q) && q.answer is None && !(
                s.work.contains_key(q.work_id) && effect_laws::closed(s.work[q.work_id]))
            &&& forall|q: QuestionView| #[trigger]
                b.answered.contains(q) <==> has_value(s.questions, q) && q.answer is Some
                    && s.work.contains_key(q.work_id) && s.work[q.work_id].state is Blocked
            &&& forall|q: QuestionView| #[trigger]
                b.questions.contains(q) <==> has_value(s.questions, q)
            &&& b.waiting.no_duplicates() && b.answered.no_duplicates()
                && b.questions.no_duplicates()
            &&& forall|i: int, j: int|
                0 <= i < j < b.waiting.len() ==> (#[trigger] b.waiting[i]).asked_seq <= (
                #[trigger] b.waiting[j]).asked_seq
            &&& forall|i: int, j: int|
                0 <= i < j < b.questions.len() ==> (#[trigger] b.questions[i]).asked_seq <= (
                #[trigger] b.questions[j]).asked_seq
        }),
{
    let b = status::board(s, reconciled, now);
    let all = selection::values::<String, QuestionView>(s.questions);
    assert(values_differ(s.questions));
    assert(sorting::weak_order::<Question>());
    values_stand_apart(s.questions);
    projection_laws::values_are_the_entries(s.questions);
    sorted_keeps_apart::<Question>(all);
    let list = status::asked(s);
    filtered_keeps_apart(list, status::open_question(s));
    filtered_keeps_apart(list, status::answered_and_blocked(s));
    filtered_keeps_order::<Question>(list, status::open_question(s));
    assert forall|q: QuestionView| #[trigger] b.questions.contains(q) <==> has_value(
        s.questions,
        q,
    ) by {
        effect_laws::sorted_holds::<Question>(all, q);
    }
    assert forall|q: QuestionView| #[trigger] b.waiting.contains(q) <==> has_value(s.questions, q)
        && q.answer is None && !(s.work.contains_key(q.work_id) && effect_laws::closed(
        s.work[q.work_id],
    )) by {
        filtered_holds(list, status::open_question(s), q);
        assert(b.questions.contains(q) <==> has_value(s.questions, q));
    }
    assert forall|q: QuestionView| #[trigger] b.answered.contains(q) <==> has_value(s.questions, q)
        && q.answer is Some && s.work.contains_key(q.work_id)
        && s.work[q.work_id].state is Blocked by {
        filtered_holds(list, status::answered_and_blocked(s), q);
        assert(b.questions.contains(q) <==> has_value(s.questions, q));
    }
    assert forall|i: int, j: int| 0 <= i < j < b.waiting.len() implies (
    #[trigger] b.waiting[i]).asked_seq <= (#[trigger] b.waiting[j]).asked_seq by {
        assert(!<Question as Ranked>::ahead(b.waiting[j], b.waiting[i]));
    }
    assert forall|i: int, j: int| 0 <= i < j < b.questions.len() implies (
    #[trigger] b.questions[i]).asked_seq <= (#[trigger] b.questions[j]).asked_seq by {
        assert(!<Question as Ranked>::ahead(b.questions[j], b.questions[i]));
    }
}

/// Whether a finding says that the work was blocked until a time which has come, and how
/// to go on.
pub open spec fn tells_expiry(finding: FindingView, work: WorkView) -> bool {
    &&& finding.kind == "block_expired"@
    &&& finding.status == "blocked"@
    &&& finding.attempt_id is None && finding.handle is None
    &&& finding.suggested_command == Some(
        "alder work unblock "@ + work.id + " --why \"deferral reviewed: …\""@,
    )
    &&& finding.metadata.member("work_id"@) == Some(JsonView::Text(work.id))
    &&& work.block_until is Some && document_laws::says_time(
        finding.metadata,
        "until"@,
        work.block_until->0,
    )
}

/// Whether a blocked item is to be reviewed by now.
pub open spec fn is_due(s: StateView, now: Instant, w: WorkView) -> bool {
    &&& has_value(s.work, w)
    &&& w.state is Blocked
    &&& w.block_until is Some
    &&& !now.earlier(w.block_until->0)
}

/// Attention is asked for what a reconciliation has found missing, left over or finished, in
/// the order it was found, and behind that for each block whose review time is not ahead of
/// now, the first opened first.
pub proof fn attention_is_asked_for(s: StateView, reconciled: Seq<FindingView>, now: Instant)
    requires
        laws::keyed(s),
    ensures
        ({
            let due = status::expiries(s, now);
            let picked = status::attention(s, reconciled, now).take(
                status::attention(s, reconciled, now).len() - due.len(),
            );
            &&& status::attention(s, reconciled, now) == picked + due
            &&& forall|f: FindingView| #[trigger]
                picked.contains(f) <==> reconciled.contains(f) && (f.kind == "missing"@ || f.kind
                    == "orphan"@ || f.kind == "finished"@)
            &&& forall|w: WorkView| #[trigger]
                is_due(s, now, w) ==> exists|f: FindingView| #[trigger]
                    due.contains(f) && tells_expiry(f, w)
            &&& forall|f: FindingView| #[trigger]
                due.contains(f) ==> exists|w: WorkView| #[trigger]
                    is_due(s, now, w) && tells_expiry(f, w)
        }),
{
    let due = status::expiries(s, now);
    let whole = status::attention(s, reconciled, now);
    let picked = whole.take(whole.len() - due.len());
    let kept = reconciled.filter(status::settled());
    assert(picked =~= kept);
    assert(whole =~= picked + due);
    assert forall|f: FindingView| #[trigger] picked.contains(f) <==> reconciled.contains(f) && (
    f.kind == "missing"@ || f.kind == "orphan"@ || f.kind == "finished"@) by {
        filtered_holds(reconciled, status::settled(), f);
    }
    assert(values_differ(s.work));
    assert(sorting::weak_order::<Work>());
    chosen_ones_stand_in_order::<Work>(s.work, status::expired(now));
    let list = sorting::sorted::<Work>(
        selection::values::<String, WorkView>(s.work).filter(status::expired(now)),
    );
    assert forall|w: WorkView| w.block_until is Some implies tells_expiry(
        #[trigger] status::expiry(w),
        w,
    ) by {
        let members = status::expiry(w).metadata->Object_0;
        reveal_strlit("until");
        assert("until"@.len() == 5);
        reveal_strlit("work_id");
        assert("work_id"@.len() == 7);
        document_laws::found_first(members, 0, "until"@);
        document_laws::found_first(members, 1, "work_id"@);
    }
    assert forall|w: WorkView| #[trigger] is_due(s, now, w) implies exists|f: FindingView| #[trigger]
        due.contains(f) && tells_expiry(f, w) by {
        assert(list.contains(w));
        let i = choose|i: int| 0 <= i < list.len() && list[i] == w;
        assert(due[i] == status::expiry(w));
        assert(due.contains(status::expiry(w)));
    }
    assert forall|f: FindingView| #[trigger] due.contains(f) implies exists|w: WorkView| #[trigger]
        is_due(s, now, w) && tells_expiry(f, w) by {
        let i = choose|i: int| 0 <= i < due.len() && due[i] == f;
        let w = list[i];
        assert(list.contains(w));
        assert(f == status::expiry(w));
        assert(is_due(s, now, w));
    }
}

/// How alive an attempt was last said to be: the level of the report that stands last in the
/// log among those about whether it is alive.
pub proof fn liveness_is_what_was_reported_last(s: StateView, attempt_id: Seq<char>)
    requires
        s.observations.dom().finite(),
    ensures
        ({
            let items = selection::values::<ObservationKey, ObservationView>(s.observations);
            let level = status::liveness(s, attempt_id);
            &&& level is Some ==> exists|o: ObservationView| #[trigger]
                items.contains(o) && o.level == level->0 && o.key.subject == attempt_id
                    && o.key.field == "liveness"@ && forall|p: ObservationView| #[trigger]
                    items.contains(p) && p.key.subject == attempt_id && p.key.field
                        == "liveness"@ ==> p.reported_seq <= o.reported_seq
            &&& level is None ==> forall|p: ObservationView| #[trigger]
                items.contains(p) ==> !(p.key.subject == attempt_id && p.key.field == "liveness"@)
        }),
{
    let items = selection::values::<ObservationKey, ObservationView>(s.observations);
    let test = status::liveness_of(attempt_id);
    newest_is_the_newest(items.filter(test));
    assert forall|p: ObservationView| #[trigger] items.contains(p) && p.key.subject == attempt_id
        && p.key.field == "liveness"@ implies items.filter(test).contains(p) by {
        filtered_holds(items, test, p);
    }
    if status::newest(items.filter(test)) is Some {
        filtered_holds(items, test, status::newest(items.filter(test))->0);
    }
}

proof fn newest_is_the_newest(observations: Seq<ObservationView>)
    ensures
        status::newest(observations) is None <==> observations.len() == 0,
        status::newest(observations) is Some ==> observations.contains(
            status::newest(observations)->0,
        ) && forall|p: ObservationView| #[trigger]
            observations.contains(p) ==> p.reported_seq <= status::newest(
                observations,
            )->0.reported_seq,
    decreases observations.len(),
{
    if observations.len() > 0 {
        let front = observations.drop_last();
        newest_is_the_newest(front);
        assert(observations =~= front.push(observations.last()));
        assert forall|p: ObservationView| #[trigger] observations.contains(p) implies p.reported_seq
            <= status::newest(observations)->0.reported_seq by {
            crate::change_laws::pushed_holds(front, observations.last(), p);
        }
        crate::change_laws::pushed_holds(
            front,
            observations.last(),
            status::newest(observations)->0,
        );
    }
}

// ---- the document ----

/// The word that a section stands under.
pub open spec fn section_word(section: StatusSection) -> Seq<char> {
    if section is Attention {
        "attention"@
    } else if section is InFlight {
        "in_flight"@
    } else if section is Ready {
        "ready"@
    } else if section is WaitingOnHuman {
        "waiting_on_human"@
    } else {
        "blocked"@
    }
}

/// Whether a section stands in the document, with the documents of its entries.
pub open spec fn shows_section(
    document: JsonView,
    b: BoardView,
    section: StatusSection,
) -> bool {
    let word = section_word(section);
    match section {
        StatusSection::Attention => document_laws::says_each(
            document,
            word,
            b.attention,
            |told: JsonView, f: FindingView| document_laws::says_finding(told, f),
        ),
        StatusSection::InFlight => document_laws::says_each(
            document,
            word,
            b.in_flight,
            |told: JsonView, a: AttemptView| told == documents::attempt_json(a),
        ),
        StatusSection::Ready => document_laws::says_each(
            document,
            word,
            b.ready,
            |told: JsonView, w: WorkView| document_laws::says_work(told, w),
        ),
        StatusSection::WaitingOnHuman => document_laws::says_each(
            document,
            word,
            b.waiting,
            |told: JsonView, q: QuestionView| document_laws::says_question(told, q),
        ),
        StatusSection::Blocked => document_laws::says_each(
            document,
            word,
            b.blocked,
            |told: JsonView, w: WorkView| document_laws::says_work(told, w),
        ),
    }
}

/// How many entries a section has.
pub open spec fn size_of(b: BoardView, section: StatusSection) -> nat {
    if section is Attention {
        b.attention.len()
    } else if section is InFlight {
        b.in_flight.len()
    } else if section is Ready {
        b.ready.len()
    } else if section is WaitingOnHuman {
        b.waiting.len()
    } else {
        b.blocked.len()
    }
}

proof fn sections_are_found(
    document: JsonView,
    b: BoardView,
    sections: Seq<StatusSection>,
    section: StatusSection,
)
    requires
        document is Object,
        document.member(section_word(section)) is None,
    ensures
        status::with_sections(document, b, sections) is Object,
        status::with_sections(document, b, sections).member(section_word(section)) == (
        if sections.contains(section) {
            Some(status::section_json(b, section))
        } else {
            None
        }),
    decreases sections.len(),
{
    reveal_strlit("attention");
    assert("attention"@.len() == 9);
    reveal_strlit("in_flight");
    assert("in_flight"@.len() == 9);
    reveal_strlit("ready");
    assert("ready"@.len() == 5);
    reveal_strlit("waiting_on_human");
    assert("waiting_on_human"@.len() == 16);
    reveal_strlit("blocked");
    assert("blocked"@.len() == 7);
    assert("attention"@[0] != "in_flight"@[0]);
    if sections.len() > 0 {
        let front = sections.drop_last();
        sections_are_found(document, b, front, section);
        assert(sections =~= front.push(sections.last()));
        crate::change_laws::pushed_holds(front, sections.last(), section);
        json::member_of_extended(
            status::with_sections(document, b, front),
            sections.last().key(),
            status::section_json(b, sections.last()),
            section_word(section),
        );
    }
}

proof fn sections_leave_the_rest(
    document: JsonView,
    b: BoardView,
    sections: Seq<StatusSection>,
    key: Seq<char>,
)
    requires
        document is Object,
        document.member(key) is Some || forall|section: StatusSection|
            key != #[trigger] section_word(section),
    ensures
        status::with_sections(document, b, sections) is Object,
        status::with_sections(document, b, sections).member(key) == document.member(key),
    decreases sections.len(),
{
    if sections.len() > 0 {
        let front = sections.drop_last();
        sections_leave_the_rest(document, b, front, key);
        assert(sections.last().key() == section_word(sections.last()));
        json::member_of_extended(
            status::with_sections(document, b, front),
            sections.last().key(),
            status::section_json(b, sections.last()),
            key,
        );
    }
}

proof fn sections_show_their_entries(document: JsonView, b: BoardView, section: StatusSection)
    requires
        document.member(section_word(section)) == Some(status::section_json(b, section)),
    ensures
        shows_section(document, b, section),
{
    assert forall|w: WorkView| document_laws::says_work(#[trigger] documents::work_json(w), w) by {
        document_laws::work_documents_tell_the_work(w);
    }
    assert forall|q: QuestionView| document_laws::says_question(
        #[trigger] documents::question_json(q),
        q,
    ) by {
        document_laws::question_documents_tell_the_questions(q);
    }
    assert forall|f: FindingView| document_laws::says_finding(
        #[trigger] documents::finding_json(f),
        f,
    ) by {
        document_laws::finding_documents_tell_the_findings(f);
    }
}

/// The sections that are asked for are shown, each with the documents of its entries, and no
/// others; in full, all of them are, and behind them the last events of the log, ten at the
/// most, the last of which is the one at its end.
pub proof fn statuses_show_what_is_asked_for(
    scene: SceneView,
    b: BoardView,
    full: bool,
    requested: Seq<StatusSection>,
    section: StatusSection,
)
    ensures
        ({
            let document = status::status_json(scene, b, full, requested);
            let n = if scene.events.len() < 10 {
                scene.events.len() as int
            } else {
                10
            };
            &&& full || requested.contains(section) ==> shows_section(document, b, section)
            &&& !full && !requested.contains(section) ==> document.member(
                section_word(section),
            ) is None
            &&& full ==> document_laws::says_each(
                document,
                "recent_events"@,
                Seq::new(n as nat, |i: int| scene.events[scene.events.len() - n + i]),
                |told: JsonView, event: EventView| document_laws::says_summary(told, event),
            )
            &&& !full ==> document.member("recent_events"@) is None
        }),
{
    let document = status::status_json(scene, b, full, requested);
    let counted = full_base(scene, b);
    base_has_no_section(scene, b, section);
    let sections = if full {
        status::all_sections()
    } else {
        status::selected(requested)
    };
    all_sections_are_there(section);
    filtered_holds(
        status::all_sections(),
        |s: StatusSection| requested.contains(s),
        section,
    );
    sections_are_found(counted, b, sections, section);
    let parts = status::with_sections(counted, b, sections);
    let last = documents::summaries(documents::recent(scene.events));
    let key = "recent_events"@;
    reveal_strlit("attention");
    assert("attention"@.len() == 9);
    reveal_strlit("in_flight");
    assert("in_flight"@.len() == 9);
    reveal_strlit("ready");
    assert("ready"@.len() == 5);
    reveal_strlit("waiting_on_human");
    assert("waiting_on_human"@.len() == 16);
    reveal_strlit("blocked");
    assert("blocked"@.len() == 7);
    reveal_strlit("recent_events");
    assert("recent_events"@.len() == 13);
    assert("attention"@[0] != "in_flight"@[0]);
    sections_leave_the_rest(counted, b, sections, key);
    if full {
        json::member_of_extended(parts, key, last, section_word(section));
        json::member_of_extended(parts, key, last, key);
        recent_ones_end_the_list(scene.events);
        assert forall|event: EventView| document_laws::says_summary(
            #[trigger] documents::summary(event),
            event,
        ) by {
            document_laws::summaries_tell_the_events(event);
        }
    }
    if full || requested.contains(section) {
        sections_show_their_entries(document, b, section);
    }
}

/// The part of the document that is the same whatever is asked for.
spec fn full_base(scene: SceneView, b: BoardView) -> JsonView {
    status::status_base(scene.state, scene.head, scene.hypothetical, scene.source).with(
        "observations"@,
        json::empty_object().with(
            "snapshot"@,
            wire::list_json::<Observation>(
                selection::values::<ObservationKey, ObservationView>(scene.state.observations),
            ),
        ),
    ).with("questions"@, documents::question_documents(scene.state, b.questions)).with(
        "counts"@,
        status::counts(b),
    )
}

proof fn all_sections_are_there(section: StatusSection)
    ensures
        status::all_sections().contains(section),
{
    let all = status::all_sections();
    match section {
        StatusSection::Attention => {
            assert(all[0] == section);
        },
        StatusSection::InFlight => {
            assert(all[1] == section);
        },
        StatusSection::Ready => {
            assert(all[2] == section);
        },
        StatusSection::WaitingOnHuman => {
            assert(all[3] == section);
        },
        StatusSection::Blocked => {
            assert(all[4] == section);
        },
    }
}

proof fn base_has_no_section(scene: SceneView, b: BoardView, section: StatusSection)
    ensures
        full_base(scene, b) is Object,
        full_base(scene, b).member(section_word(section)) is None,
        full_base(scene, b).member("recent_events"@) is None,
{
    let members = full_base(scene, b)->Object_0;
    reveal_strlit("head");
    assert("head"@.len() == 4);
    reveal_strlit("hypothetical");
    assert("hypothetical"@.len() == 12);
    reveal_strlit("loop");
    assert("loop"@.len() == 4);
    reveal_strlit("revision");
    assert("revision"@.len() == 8);
    reveal_strlit("schema");
    assert("schema"@.len() == 6);
    reveal_strlit("source");
    assert("source"@.len() == 6);
    reveal_strlit("observations");
    assert("observations"@.len() == 12);
    reveal_strlit("questions");
    assert("questions"@.len() == 9);
    reveal_strlit("counts");
    assert("counts"@.len() == 6);
    reveal_strlit("attention");
    assert("attention"@.len() == 9);
    reveal_strlit("in_flight");
    assert("in_flight"@.len() == 9);
    reveal_strlit("ready");
    assert("ready"@.len() == 5);
    reveal_strlit("waiting_on_human");
    assert("waiting_on_human"@.len() == 16);
    reveal_strlit("blocked");
    assert("blocked"@.len() == 7);
    reveal_strlit("recent_events");
    assert("recent_events"@.len() == 13);
    assert("head"@[0] != "loop"@[0]);
    assert("hypothetical"@[0] != "observations"@[0]);
    assert("schema"@[1] != "source"@[1]);
    assert("schema"@[0] != "counts"@[0]);
    assert("source"@[0] != "counts"@[0]);
    assert("questions"@[0] != "attention"@[0]);
    assert("questions"@[0] != "in_flight"@[0]);
    assert("attention"@[0] != "in_flight"@[0]);
    wire::member_missing(members, section_word(section));
    wire::member_missing(members, "recent_events"@);
}

/// Whatever is asked for, the status tells the head and the revision it is of, whether it is
/// made up and of what, what is wanted of the loop, what is observed, all the questions, and
/// how many entries each section has.
pub proof fn statuses_tell_what_they_are_of(
    scene: SceneView,
    b: BoardView,
    full: bool,
    requested: Seq<StatusSection>,
    section: StatusSection,
)
    ensures
        ({
            let document = status::status_json(scene, b, full, requested);
            &&& document.member("schema"@) == Some(JsonView::Text("alder.status.v0"@))
            &&& document.member("head"@) == Some(JsonView::Int(scene.head.seq as int))
            &&& document_laws::says_text(document, "revision"@, scene.head.revision)
            &&& document.member("hypothetical"@) == Some(JsonView::Bool(scene.hypothetical))
            &&& document_laws::says_text(document, "source"@, scene.source)
            &&& document.member("loop"@) is Some && document_laws::says_loop(
                document.member("loop"@)->0,
                scene.state,
            )
            &&& document.member("counts"@) is Some
            &&& document.member("counts"@)->0.member(section_word(section)) == Some(
                JsonView::Int(size_of(b, section) as int),
            )
            &&& document_laws::says_each(
                document,
                "questions"@,
                b.questions,
                |told: JsonView, q: QuestionView| document_laws::says_question(told, q),
            )
            &&& document.member("observations"@) is Some
            &&& document_laws::says_each(
                document.member("observations"@)->0,
                "snapshot"@,
                selection::values::<ObservationKey, ObservationView>(scene.state.observations),
                |told: JsonView, o: ObservationView| document_laws::says_observation(told, o),
            )
        }),
{
    let document = status::status_json(scene, b, full, requested);
    let counted = full_base(scene, b);
    let members = counted->Object_0;
    reveal_strlit("head");
    assert("head"@.len() == 4);
    reveal_strlit("hypothetical");
    assert("hypothetical"@.len() == 12);
    reveal_strlit("loop");
    assert("loop"@.len() == 4);
    reveal_strlit("revision");
    assert("revision"@.len() == 8);
    reveal_strlit("schema");
    assert("schema"@.len() == 6);
    reveal_strlit("source");
    assert("source"@.len() == 6);
    reveal_strlit("observations");
    assert("observations"@.len() == 12);
    reveal_strlit("questions");
    assert("questions"@.len() == 9);
    reveal_strlit("counts");
    assert("counts"@.len() == 6);
    reveal_strlit("attention");
    assert("attention"@.len() == 9);
    reveal_strlit("in_flight");
    assert("in_flight"@.len() == 9);
    reveal_strlit("ready");
    assert("ready"@.len() == 5);
    reveal_strlit("waiting_on_human");
    assert("waiting_on_human"@.len() == 16);
    reveal_strlit("blocked");
    assert("blocked"@.len() == 7);
    reveal_strlit("recent_events");
    assert("recent_events"@.len() == 13);
    assert("head"@[0] != "loop"@[0]);
    assert("hypothetical"@[0] != "observations"@[0]);
    assert("schema"@[1] != "source"@[1]);
    assert("schema"@[0] != "counts"@[0]);
    assert("source"@[0] != "counts"@[0]);
    assert("questions"@[0] != "attention"@[0]);
    assert("questions"@[0] != "in_flight"@[0]);
    assert("attention"@[0] != "in_flight"@[0]);
    document_laws::found_first(members, 0, "head"@);
    document_laws::found_first(members, 1, "hypothetical"@);
    document_laws::found_first(members, 2, "loop"@);
    document_laws::found_first(members, 3, "revision"@);
    document_laws::found_first(members, 4, "schema"@);
    document_laws::found_first(members, 5, "source"@);
    document_laws::found_first(members, 6, "observations"@);
    document_laws::found_first(members, 7, "questions"@);
    document_laws::found_first(members, 8, "counts"@);
    let sections = if full {
        status::all_sections()
    } else {
        status::selected(requested)
    };
    let parts = status::with_sections(counted, b, sections);
    let last = documents::summaries(documents::recent(scene.events));
    assert forall|key: Seq<char>| #[trigger] counted.member(key) is Some implies document.member(key)
        == counted.member(key) by {
        sections_leave_the_rest(counted, b, sections, key);
        json::member_of_extended(parts, "recent_events"@, last, key);
    }
    assert(counted.member("head"@) is Some);
    assert(counted.member("hypothetical"@) is Some);
    assert(counted.member("loop"@) is Some);
    assert(counted.member("revision"@) is Some);
    assert(counted.member("schema"@) is Some);
    assert(counted.member("source"@) is Some);
    assert(counted.member("observations"@) is Some);
    assert(counted.member("questions"@) is Some);
    assert(counted.member("counts"@) is Some);
    document_laws::loop_documents_tell_what_is_wanted(scene.state);
    status::counts_are_those_of_the_sections(b, section);
    assert forall|q: QuestionView| document_laws::says_question(
        #[trigger] documents::question_document(scene.state, q),
        q,
    ) by {
        document_laws::question_documents_tell_what_strands_them(scene.state, q);
    }
    assert forall|o: ObservationView| document_laws::says_observation(
        #[trigger] documents::observation_json(o),
        o,
    ) by {
        document_laws::observation_documents_tell_the_observations(o);
    }
    let observed = counted.member("observations"@)->0->Object_0;
    reveal_strlit("snapshot");
    document_laws::found_first(observed, 0, "snapshot"@);
}

/// The sections that are asked for are shown in the order of the status, each once.
pub proof fn selected_sections_stand_in_order(requested: Seq<StatusSection>)
    ensures
        ({
            let picked = status::selected(requested);
            &&& picked.no_duplicates()
            &&& forall|section: StatusSection| #[trigger]
                picked.contains(section) <==> requested.contains(section)
        }),
{
    let test = |s: StatusSection| requested.contains(s);
    let all = status::all_sections();
    assert(all.no_duplicates());
    filtered_keeps_apart(all, test);
    assert forall|section: StatusSection| #[trigger]
        status::selected(requested).contains(section) <==> requested.contains(section) by {
        all_sections_are_there(section);
        filtered_holds(all, test, section);
    }
}

// ---- what to do next ----

/// What can be started next is told with the documents of the ready work, in its order.
pub proof fn next_shows_the_ready_work(scene: SceneView)
    ensures
        ({
            let document = status::next_output(scene).json;
            &&& document_laws::says_each(
                document,
                "work"@,
                rules::ready_work(scene.state),
                |told: JsonView, w: WorkView| document_laws::says_work(told, w),
            )
            &&& document.member("schema"@) == Some(JsonView::Text("alder.next.v0"@))
            &&& document.member("head"@) == Some(JsonView::Int(scene.head.seq as int))
            &&& document_laws::says_text(document, "revision"@, scene.head.revision)
            &&& document.member("hypothetical"@) == Some(JsonView::Bool(scene.hypothetical))
            &&& document_laws::says_text(document, "source"@, scene.source)
        }),
{
    let members = status::next_output(scene).json->Object_0;
    reveal_strlit("head");
    assert("head"@.len() == 4);
    reveal_strlit("hypothetical");
    assert("hypothetical"@.len() == 12);
    reveal_strlit("revision");
    assert("revision"@.len() == 8);
    reveal_strlit("schema");
    assert("schema"@.len() == 6);
    reveal_strlit("source");
    assert("source"@.len() == 6);
    reveal_strlit("work");
    assert("work"@.len() == 4);
    assert("head"@[0] != "work"@[0]);
    assert("schema"@[1] != "source"@[1]);
    document_laws::found_first(members, 0, "head"@);
    document_laws::found_first(members, 1, "hypothetical"@);
    document_laws::found_first(members, 2, "revision"@);
    document_laws::found_first(members, 3, "schema"@);
    document_laws::found_first(members, 4, "source"@);
    document_laws::found_first(members, 5, "work"@);
    assert forall|w: WorkView| document_laws::says_work(#[trigger] documents::work_json(w), w) by {
        document_laws::work_documents_tell_the_work(w);
    }
}

// ---- made-up projects ----

/// A query without a change laid over it is about the project as it is. With one, it is about
/// the project that the change would make, if the change were appended next; the head and the
/// events are those of the log, and the answer says that it is made up. A change that would
/// be refused makes no project.
pub proof fn queries_are_about_the_project_or_what_it_would_be(
    snapshot: SnapshotView,
    source: Seq<char>,
    document: GraphChangeDocumentView,
    event: EventView,
)
    ensures
        ({
            let plain = status::scene(snapshot, None);
            &&& plain is Ok
            &&& plain->Ok_0.state == snapshot.state && plain->Ok_0.head == snapshot.head
            &&& plain->Ok_0.events == snapshot.events
            &&& !plain->Ok_0.hypothetical && plain->Ok_0.source is None
        }),
        ({
            let laid = status::scene(snapshot, Some((source, document)));
            let change = change::prepared(
                snapshot.state,
                document,
                ChangeMode::Hypothetical,
                status::made_up_ids(document.add),
            );
            &&& change is Err ==> laid is Err
            &&& change is Ok && snapshot.head.seq < u64::MAX && event.seq == snapshot.head.seq + 1
                && event.payload == EventPayloadView::Work(
                WorkEventPayloadView::WorkChanged {
                    why: document.why,
                    operations: change->Ok_0.operations,
                },
            ) ==> {
                &&& laid is Ok <==> rules::step(snapshot.state, event) is Ok
                &&& laid is Ok ==> laid->Ok_0.state == rules::step(snapshot.state, event)->Ok_0
            }
            &&& laid is Ok ==> laid->Ok_0.head == snapshot.head && laid->Ok_0.events
                == snapshot.events && laid->Ok_0.hypothetical && laid->Ok_0.source == Some(source)
        }),
{
}

} // verus!

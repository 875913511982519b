//! What an observer is asked, what its answers change, and what is found of the attempts.

use vstd::prelude::*;

use crate::attempt::AttemptView;
use crate::documents::FindingView;
use crate::json::JsonView;
use crate::laws;
use crate::observation::{ObservationKey, ObservationKeyView, ObservationView};
use crate::observer;
use crate::observer::{Listed, TargetView};
use crate::project::StateView;
use crate::projection_laws;
use crate::projection_laws::has_value;
use crate::refresh::{LevelToldView, ObservationChangeView};
use crate::selection;
use crate::status;
use crate::status_laws;

verus! {

// ---- whom to ask ----

/// An observer is asked about the handle of every attempt that has not ended, and of every
/// ended one that it has said of whether it is alive; with the handle goes the attempt.
pub proof fn watched_handles_are_asked_about(s: StateView, kind: Seq<char>)
    requires
        laws::keyed(s),
    ensures
        forall|t: TargetView| #[trigger]
            selection::values::<String, AttemptView>(s.attempts).filter(
                observer::watched(s, kind),
            ).map_values(observer::target()).contains(t) <==> s.attempts.contains_key(t.attempt_id)
                && s.attempts[t.attempt_id].handle == Some(t.handle) && (!(
            s.attempts[t.attempt_id].state is Ended) || s.observations.contains_key(
                ObservationKeyView { observer: kind, subject: t.attempt_id, field: "liveness"@ },
            )),
{
    let all = selection::values::<String, AttemptView>(s.attempts);
    let kept = all.filter(observer::watched(s, kind));
    let targets = kept.map_values(observer::target());
    projection_laws::values_are_the_entries(s.attempts);
    assert forall|t: TargetView| #[trigger] targets.contains(t) <==> s.attempts.contains_key(
        t.attempt_id,
    ) && s.attempts[t.attempt_id].handle == Some(t.handle) && (!(
    s.attempts[t.attempt_id].state is Ended) || s.observations.contains_key(
        ObservationKeyView { observer: kind, subject: t.attempt_id, field: "liveness"@ },
    )) by {
        if targets.contains(t) {
            let i = choose|i: int| 0 <= i < targets.len() && targets[i] == t;
            let a = kept[i];
            assert(kept.contains(a));
            status_laws::filtered_holds(all, observer::watched(s, kind), a);
            assert(has_value(s.attempts, a));
            let k = choose|k: Seq<char>| #[trigger]
                s.attempts.contains_key(k) && s.attempts[k] == a;
            assert(a.id == k);
        }
        if s.attempts.contains_key(t.attempt_id) {
            let a = s.attempts[t.attempt_id];
            assert(a.id == t.attempt_id);
            assert(has_value(s.attempts, a));
            assert(all.contains(a));
            status_laws::filtered_holds(all, observer::watched(s, kind), a);
            if kept.contains(a) && a.handle == Some(t.handle) {
                let i = choose|i: int| 0 <= i < kept.len() && kept[i] == a;
                assert(targets[i] == t);
            }
        }
    }
}

// ---- what a listing tells ----

/// A listing tells what its items tell, in their order; a handle that it lists is present,
/// and works for the attempt that it names.
pub proof fn listings_tell_what_their_items_tell(items: Seq<Listed>, item: Listed)
    ensures
        observer::levels_listed(Seq::empty()) == Seq::<LevelToldView>::empty(),
        ({
            let before = observer::levels_listed(items);
            let after = observer::levels_listed(items.push(item));
            match item {
                Listed::Level { subject, field, level } => after == before.push(
                    LevelToldView { subject: subject@, field: field@, level: level@ },
                ),
                Listed::Handle { value, attempt_id } => {
                    let alive = before.push(
                        LevelToldView {
                            subject: value@,
                            field: "liveness"@,
                            level: "present"@,
                        },
                    );
                    match attempt_id {
                        None => after == alive,
                        Some(id) => after == alive.push(
                            LevelToldView { subject: value@, field: "attempt-id"@, level: id@ },
                        ),
                    }
                },
            }
        }),
{
    assert(items.push(item).drop_last() =~= items);
    assert(items.push(item).last() == item);
}

/// Whether a level of the listing says which attempt a subject works for.
pub open spec fn names_worker(s: StateView, told: LevelToldView, subject: Seq<char>) -> bool {
    &&& told.subject == subject
    &&& told.field == "attempt-id"@
    &&& s.attempts.contains_key(told.level)
}

/// Whether the level at `n` is the last that says which attempt a subject works for.
pub open spec fn names_worker_last(
    s: StateView,
    levels: Seq<LevelToldView>,
    subject: Seq<char>,
    n: int,
) -> bool {
    &&& 0 <= n < levels.len()
    &&& names_worker(s, levels[n], subject)
    &&& forall|i: int| n < i < levels.len() ==> !names_worker(s, #[trigger] levels[i], subject)
}

/// What is told of a subject is told of the attempt that the listing last says it works for,
/// if there is that attempt, and of the subject itself where the listing names none.
pub proof fn levels_are_told_of_the_attempts_they_name(
    s: StateView,
    levels: Seq<LevelToldView>,
    told: LevelToldView,
)
    ensures
        observer::attributed(s, levels)(told).field == told.field,
        observer::attributed(s, levels)(told).level == told.level,
        forall|n: int| #[trigger]
            names_worker_last(s, levels, told.subject, n) ==> observer::attributed(
                s,
                levels,
            )(told).subject == levels[n].level,
        (forall|i: int|
            0 <= i < levels.len() ==> !names_worker(s, #[trigger] levels[i], told.subject))
            ==> observer::attributed(s, levels)(told).subject == told.subject,
    decreases levels.len(),
{
    if levels.len() > 0 {
        let front = levels.drop_last();
        levels_are_told_of_the_attempts_they_name(s, front, told);
        assert(observer::attributes(s, levels.last(), told.subject) == names_worker(
            s,
            levels[levels.len() - 1],
            told.subject,
        ));
        assert forall|n: int| #[trigger] names_worker_last(s, levels, told.subject, n) && n
            < front.len() implies names_worker_last(s, front, told.subject, n) by {
            assert(front[n] == levels[n]);
            assert forall|i: int| n < i < front.len() implies !names_worker(
                s,
                #[trigger] front[i],
                told.subject,
            ) by {
                assert(front[i] == levels[i]);
            }
        }
        assert forall|n: int| #[trigger]
            names_worker_last(s, levels, told.subject, n) implies observer::attributed(
            s,
            levels,
        )(told).subject == levels[n].level by {
            if n < front.len() {
                assert(names_worker_last(s, front, told.subject, n));
                assert(front[n] == levels[n]);
            }
        }
    }
}

// ---- what a run changes ----

/// Whether a change reports the level that is told.
pub open spec fn reports(
    change: ObservationChangeView,
    kind: Seq<char>,
    told: LevelToldView,
) -> bool {
    &&& change.key.observer == kind
    &&& change.key.subject == told.subject
    &&& change.key.field == told.field
    &&& change.level == Some(told.level)
}

/// Whether the listing tells anything under the key.
pub open spec fn listed(levels: Seq<LevelToldView>, key: ObservationKeyView) -> bool {
    exists|l: LevelToldView| #[trigger]
        levels.contains(l) && l.subject == key.subject && l.field == key.field
}

/// Whether there is such an attempt and it has not ended.
pub open spec fn running(s: StateView, id: Seq<char>) -> bool {
    s.attempts.contains_key(id) && !(s.attempts[id].state is Ended)
}

/// A complete listing reports each level that it tells, in its order. Of each other
/// observation of this observer it says that the attempt is absent, where it is about
/// whether one is alive that has not ended, and takes it back otherwise. It changes nothing
/// else.
pub proof fn listings_report_and_take_back(
    s: StateView,
    kind: Seq<char>,
    levels: Seq<LevelToldView>,
)
    ensures
        ({
            let plan = observer::list_plan(s, kind, levels);
            let known = selection::values::<ObservationKey, ObservationView>(s.observations);
            &&& plan.len() >= levels.len()
            &&& forall|i: int|
                0 <= i < levels.len() ==> reports(#[trigger] plan[i], kind, levels[i])
            &&& forall|c: ObservationChangeView| #[trigger]
                plan.skip(levels.len() as int).contains(c) <==> exists|o: ObservationView|
                    #[trigger]
                    known.contains(o) && o.key == c.key && o.key.observer == kind && !listed(
                        levels,
                        o.key,
                    ) && c.level == (if o.key.field == "liveness"@ && running(s, o.key.subject) {
                        Some("absent"@)
                    } else {
                        None
                    })
        }),
{
    let plan = observer::list_plan(s, kind, levels);
    let known = selection::values::<ObservationKey, ObservationView>(s.observations);
    let test = observer::left_out(kind, levels);
    let kept = known.filter(test);
    let rest = kept.map_values(observer::silent_change(s));
    assert(plan.skip(levels.len() as int) =~= rest);
    assert forall|i: int| 0 <= i < levels.len() implies reports(
        #[trigger] plan[i],
        kind,
        levels[i],
    ) by {
        assert(plan[i] == observer::told_change(kind)(levels[i]));
    }
    assert forall|key: ObservationKeyView| key.observer == kind implies (#[trigger] observer::is_told(
        kind,
        levels,
        key,
    ) <==> listed(levels, key)) by {
        if observer::is_told(kind, levels, key) {
            let i = choose|i: int|
                0 <= i < levels.len() && observer::key_told(kind, #[trigger] levels[i]) == key;
            assert(levels.contains(levels[i]));
        }
        if listed(levels, key) {
            let l = choose|l: LevelToldView| #[trigger]
                levels.contains(l) && l.subject == key.subject && l.field == key.field;
            let i = choose|i: int| 0 <= i < levels.len() && levels[i] == l;
            assert(observer::key_told(kind, levels[i]) == key);
        }
    }
    assert forall|c: ObservationChangeView| #[trigger] rest.contains(c) <==> exists|
        o: ObservationView,
    | #[trigger]
        known.contains(o) && o.key == c.key && o.key.observer == kind && !listed(levels, o.key)
            && c.level == (if o.key.field == "liveness"@ && running(s, o.key.subject) {
            Some("absent"@)
        } else {
            None
        }) by {
        if rest.contains(c) {
            let i = choose|i: int| 0 <= i < rest.len() && rest[i] == c;
            let o = kept[i];
            assert(kept.contains(o));
            status_laws::filtered_holds(known, test, o);
            assert(c == observer::silent_change(s)(o));
            assert(observer::is_told(kind, levels, o.key) <==> listed(levels, o.key));
            assert(known.contains(o));
        }
        if exists|o: ObservationView| #[trigger]
            known.contains(o) && o.key == c.key && o.key.observer == kind && !listed(
                levels,
                o.key,
            ) && c.level == (if o.key.field == "liveness"@ && running(s, o.key.subject) {
                Some("absent"@)
            } else {
                None
            }) {
            let o = choose|o: ObservationView| #[trigger]
                known.contains(o) && o.key == c.key && o.key.observer == kind && !listed(
                    levels,
                    o.key,
                ) && c.level == (if o.key.field == "liveness"@ && running(s, o.key.subject) {
                    Some("absent"@)
                } else {
                    None
                });
            assert(observer::is_told(kind, levels, o.key) <==> listed(levels, o.key));
            status_laws::filtered_holds(known, test, o);
            let i = choose|i: int| 0 <= i < kept.len() && kept[i] == o;
            assert(rest[i] == c);
        }
    }
}

/// An answer about a handle changes what it tells and nothing else. The level is as it is
/// told, but for an attempt that is absent and does not run: of that one nothing is kept.
pub proof fn answers_change_what_they_tell(
    s: StateView,
    kind: Seq<char>,
    levels: Seq<LevelToldView>,
)
    ensures
        ({
            let plan = levels.map_values(observer::probe_change(s, kind));
            &&& plan.len() == levels.len()
            &&& forall|i: int|
                0 <= i < levels.len() ==> if levels[i].field == "liveness"@ && levels[i].level
                    == "absent"@ && !running(s, levels[i].subject) {
                    &&& (#[trigger] plan[i]).level is None
                    &&& plan[i].key == ObservationKeyView {
                        observer: kind,
                        subject: levels[i].subject,
                        field: "liveness"@,
                    }
                } else {
                    reports(plan[i], kind, levels[i])
                }
        }),
{
}

// ---- what is found ----

/// An attempt that runs and was last said to be absent is found missing, with the command
/// that ends it as lost; one that has ended and was last said to be present is found left
/// over. Nothing else is found.
pub proof fn findings_are_what_the_levels_contradict(s: StateView)
    requires
        laws::keyed(s),
    ensures
        forall|a: AttemptView| #[trigger]
            has_value(s.attempts, a) && !(a.state is Ended) && status::liveness(s, a.id) == Some(
                "absent"@,
            ) ==> exists|f: FindingView| #[trigger]
                observer::disagreements(s).contains(f) && tells_missing(f, a),
        forall|a: AttemptView| #[trigger]
            has_value(s.attempts, a) && a.state is Ended && status::liveness(s, a.id) == Some(
                "present"@,
            ) ==> exists|f: FindingView| #[trigger]
                observer::disagreements(s).contains(f) && tells_orphan(f, a),
        forall|f: FindingView| #[trigger]
            observer::disagreements(s).contains(f) ==> exists|a: AttemptView| #[trigger]
                has_value(s.attempts, a) && if a.state is Ended {
                    tells_orphan(f, a) && status::liveness(s, a.id) == Some("present"@)
                } else {
                    tells_missing(f, a) && status::liveness(s, a.id) == Some("absent"@)
                },
{
    let running = status::in_flight(s);
    let gone = running.filter(observer::observed_absent(s));
    let first = observer::missing_workers(s);
    let all = selection::values::<String, AttemptView>(s.attempts);
    let left = all.filter(observer::outlived(s));
    let second = observer::orphans(s);
    let whole = observer::disagreements(s);
    status_laws::in_flight_are_the_attempts_that_have_not_ended(s);
    projection_laws::values_are_the_entries(s.attempts);
    assert forall|a: AttemptView| tells_missing(#[trigger] observer::missing(a), a)
        && tells_orphan(#[trigger] observer::orphan(a), a) by {
        let m = observer::missing(a).metadata->Object_0;
        let o = observer::orphan(a).metadata->Object_0;
        crate::document_laws::found_first(m, 0, "work_id"@);
        crate::document_laws::found_first(o, 0, "work_id"@);
    }
    assert forall|a: AttemptView| #[trigger] has_value(s.attempts, a) && !(a.state is Ended)
        && status::liveness(s, a.id) == Some("absent"@) implies exists|f: FindingView| #[trigger]
        whole.contains(f) && tells_missing(f, a) by {
        assert(running.contains(a));
        status_laws::filtered_holds(running, observer::observed_absent(s), a);
        let i = choose|i: int| 0 <= i < gone.len() && gone[i] == a;
        assert(whole[i] == observer::missing(a));
        assert(whole.contains(observer::missing(a)));
    }
    assert forall|a: AttemptView| #[trigger] has_value(s.attempts, a) && a.state is Ended
        && status::liveness(s, a.id) == Some("present"@) implies exists|f: FindingView| #[trigger]
        whole.contains(f) && tells_orphan(f, a) by {
        assert(all.contains(a));
        status_laws::filtered_holds(all, observer::outlived(s), a);
        let i = choose|i: int| 0 <= i < left.len() && left[i] == a;
        assert(whole[first.len() + i] == observer::orphan(a));
        assert(whole.contains(observer::orphan(a)));
    }
    assert forall|f: FindingView| #[trigger] whole.contains(f) implies exists|a: AttemptView|
        #[trigger]
        has_value(s.attempts, a) && if a.state is Ended {
            tells_orphan(f, a) && status::liveness(s, a.id) == Some("present"@)
        } else {
            tells_missing(f, a) && status::liveness(s, a.id) == Some("absent"@)
        } by {
        let i = choose|i: int| 0 <= i < whole.len() && whole[i] == f;
        if i < first.len() {
            let a = gone[i];
            assert(gone.contains(a));
            status_laws::filtered_holds(running, observer::observed_absent(s), a);
            assert(running.contains(a));
            assert(has_value(s.attempts, a));
            assert(f == observer::missing(a));
        } else {
            let a = left[i - first.len()];
            assert(left.contains(a));
            status_laws::filtered_holds(all, observer::outlived(s), a);
            assert(all.contains(a));
            assert(has_value(s.attempts, a));
            assert(f == observer::orphan(a));
        }
    }
}

/// Whether a finding says that the attempt is missing.
pub open spec fn tells_missing(f: FindingView, a: AttemptView) -> bool {
    &&& f.kind == "missing"@
    &&& f.status == "absent"@
    &&& f.attempt_id == Some(a.id)
    &&& f.handle == a.handle
    &&& f.suggested_command == Some(
        "alder attempt end "@ + a.id + " --outcome lost --why \"observed absent\""@,
    )
    &&& f.metadata.member("work_id"@) == Some(JsonView::Text(a.work_id))
}

/// Whether a finding says that the worker of the attempt is left over.
pub open spec fn tells_orphan(f: FindingView, a: AttemptView) -> bool {
    &&& f.kind == "orphan"@
    &&& f.status == "present"@
    &&& f.attempt_id == Some(a.id)
    &&& f.handle == a.handle
    &&& f.suggested_command is None
    &&& f.metadata.member("work_id"@) == Some(JsonView::Text(a.work_id))
}

} // verus!

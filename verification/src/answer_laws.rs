//! What answers, counts and files come to.

use vstd::prelude::*;

use crate::catalog;
use crate::change_laws;
use crate::cli::{DebugLogCommand, NonSuccessOutcome};
use crate::commands;
use crate::config::ObserverView;
use crate::debug;
use crate::document_laws;
use crate::documents;
use crate::error;
use crate::error::ErrorView;
use crate::event::EventView;
use crate::git;
use crate::json;
use crate::json::JsonView;
use crate::log::{ObservationAppendView, SnapshotView};
use crate::observation::{ObservationKeyView, ObservationView};
use crate::refresh;
use crate::refresh::{LevelToldView, ObservationChangeView, ObserverRun, RefreshApplication};
use crate::rules;
use crate::status_laws;
use crate::store::AppendResultView;
use crate::text;
use crate::text_laws;
use crate::views;

verus! {

// ---- files ----

/// A number in so many digits.
spec fn in_digits(n: nat, width: nat) -> Seq<char>
    decreases width,
{
    if width == 0 {
        Seq::empty()
    } else {
        in_digits(n / 10, (width - 1) as nat) + text::digit((n % 10) as u64)
    }
}

proof fn digits_are_one(n: nat)
    ensures
        text::digit((n % 10) as u64).len() == 1,
        text::digit((n % 10) as u64)[0] as int == '0' as int + n % 10,
{
    reveal_strlit("0");
    reveal_strlit("1");
    reveal_strlit("2");
    reveal_strlit("3");
    reveal_strlit("4");
    reveal_strlit("5");
    reveal_strlit("6");
    reveal_strlit("7");
    reveal_strlit("8");
    reveal_strlit("9");
}

proof fn zeros_in_digits(width: nat)
    ensures
        in_digits(0, width) == Seq::new(width, |i: int| '0'),
    decreases width,
{
    if width > 0 {
        zeros_in_digits((width - 1) as nat);
        digits_are_one(0);
        assert(in_digits(0, width) =~= Seq::new(width, |i: int| '0'));
    } else {
        assert(in_digits(0, 0) =~= Seq::new(0, |i: int| '0'));
    }
}

proof fn padded_numbers_are_in_digits(n: nat, width: nat)
    requires
        text::decimal(n).len() <= width,
    ensures
        in_digits(n, width) == Seq::new((width - text::decimal(n).len()) as nat, |i: int| '0')
            + text::decimal(n),
        text::decimal(n).len() > 0,
    decreases n,
{
    digits_are_one(n);
    let shown = text::decimal(n);
    let zeros = Seq::new((width - shown.len()) as nat, |i: int| '0');
    let last = text::digit((n % 10) as u64);
    if n < 10 {
        assert(shown == last);
        zeros_in_digits((width - 1) as nat);
        assert(in_digits(n, width) =~= zeros + shown);
    } else {
        let front = text::decimal(n / 10);
        assert(shown == front + last);
        padded_numbers_are_in_digits(n / 10, (width - 1) as nat);
        assert(zeros + (front + last) =~= (zeros + front) + last);
    }
}

proof fn in_digits_len(n: nat, width: nat)
    ensures
        in_digits(n, width).len() == width,
    decreases width,
{
    if width > 0 {
        in_digits_len(n / 10, (width - 1) as nat);
        digits_are_one(n);
    }
}

proof fn smaller_numbers_differ_first(n: nat, m: nat, width: nat) -> (at: int)
    requires
        n < m,
        text::decimal(m).len() <= width,
    ensures
        0 <= at < width,
        forall|i: int| 0 <= i < at ==> #[trigger] in_digits(n, width)[i] == in_digits(m, width)[i],
        (in_digits(n, width)[at] as int) < (in_digits(m, width)[at] as int),
    decreases width,
{
    padded_numbers_are_in_digits(m, width);
    in_digits_len(n / 10, (width - 1) as nat);
    in_digits_len(m / 10, (width - 1) as nat);
    digits_are_one(n);
    digits_are_one(m);
    if n / 10 == m / 10 {
        width - 1
    } else {
        assert(n / 10 < m / 10);
        assert(m >= 10);
        assert(text::decimal(m).len() == text::decimal(m / 10).len() + 1);
        let at = smaller_numbers_differ_first(n / 10, m / 10, (width - 1) as nat);
        at
    }
}

/// The least number that does not fit in so many digits.
spec fn limit(width: nat) -> nat
    decreases width,
{
    if width == 0 {
        1
    } else {
        10 * limit((width - 1) as nat)
    }
}

proof fn sequences_fit(n: nat, width: nat)
    requires
        width > 0,
        n < limit(width),
    ensures
        text::decimal(n).len() <= width,
    decreases width,
{
    digits_are_one(n);
    if n >= 10 {
        if width == 1 {
            assert(limit(0) == 1);
        }
        sequences_fit(n / 10, (width - 1) as nat);
    }
}

proof fn sequences_fit_in_twenty(n: u64)
    ensures
        text::decimal(n as nat).len() <= 20,
{
    reveal_with_fuel(limit, 21);
    assert(limit(20) == 100_000_000_000_000_000_000);
    sequences_fit(n as nat, 20);
}

/// The files of a log sort as its events stand: that of an earlier event goes first, whatever
/// the IDs are.
pub proof fn event_files_sort_as_events_stand(a: EventView, b: EventView)
    requires
        a.seq < b.seq,
    ensures
        text::text_before(git::event_file(a), git::event_file(b)),
{
    sequences_fit_in_twenty(a.seq);
    sequences_fit_in_twenty(b.seq);
    padded_numbers_are_in_digits(a.seq as nat, 20);
    padded_numbers_are_in_digits(b.seq as nat, 20);
    in_digits_len(a.seq as nat, 20);
    in_digits_len(b.seq as nat, 20);
    let first = git::twenty_digits(a.seq as nat);
    let second = git::twenty_digits(b.seq as nat);
    assert(first =~= in_digits(a.seq as nat, 20));
    assert(second =~= in_digits(b.seq as nat, 20));
    let at = smaller_numbers_differ_first(a.seq as nat, b.seq as nat, 20);
    reveal_strlit("events/");
    let n = "events/"@.len() + at;
    let one = git::event_file(a);
    let two = git::event_file(b);
    assert forall|i: int| 0 <= i < n implies #[trigger] one[i] == two[i] by {
        if i >= "events/"@.len() {
            assert(first[i - "events/"@.len()] == second[i - "events/"@.len()]);
        }
    }
    assert(one[n] == first[at] && two[n] == second[at]);
    assert(text_laws::differs_first(one, two, n));
    text_laws::texts_go_by_their_first_difference(one, two);
}

// ---- what observers said ----

/// Each level about whether something is alive counts once, as present, as absent, or as
/// neither; no other level counts.
pub proof fn levels_count_once(levels: Seq<LevelToldView>, told: LevelToldView)
    ensures
        ({
            let more = levels.push(told);
            let alive = told.field == "liveness"@;
            &&& refresh::tally(Seq::empty(), 0) == 0 && refresh::tally(Seq::empty(), 1) == 0
                && refresh::tally(Seq::empty(), 2) == 0
            &&& refresh::tally(more, 0) == refresh::tally(levels, 0) + (if alive && told.level
                == "present"@ {
                1nat
            } else {
                0
            })
            &&& refresh::tally(more, 1) == refresh::tally(levels, 1) + (if alive && told.level
                == "absent"@ {
                1nat
            } else {
                0
            })
            &&& refresh::tally(more, 2) == refresh::tally(levels, 2) + (if alive && told.level
                != "present"@ && told.level != "absent"@ {
                1nat
            } else {
                0
            })
        }),
{
    assert(levels.push(told).drop_last() =~= levels);
    reveal_strlit("present");
    reveal_strlit("absent");
    assert("present"@.len() == 7);
    assert("absent"@.len() == 6);
}

/// The levels of all runs are those of each run, one run after the other; the observers that
/// are known are those whose runs succeeded.
pub proof fn runs_add_up(runs: Seq<ObserverRun>, run: ObserverRun)
    ensures
        refresh::all_levels(Seq::empty()) == Seq::<LevelToldView>::empty(),
        refresh::all_levels(runs.push(run)) == refresh::all_levels(runs) + views::views(
            run.normalized@,
        ),
        refresh::known_kinds(Seq::empty()) == Seq::<Seq<char>>::empty(),
        run.success ==> refresh::known_kinds(runs.push(run)) == refresh::known_kinds(runs).push(
            run.kind@,
        ),
        !run.success ==> refresh::known_kinds(runs.push(run)) == refresh::known_kinds(runs),
{
    assert(runs.push(run).drop_last() =~= runs);
}

/// A refresh tells how many changes were appended and how many of them were retirements,
/// whether anything changed at all, and how many were found present, absent or neither.
pub proof fn refreshes_tell_their_counts(result: RefreshApplication)
    ensures
        ({
            let document = refresh::refresh_json(result);
            let levels = refresh::all_levels(result.runs@);
            &&& document.member("appended"@) == Some(JsonView::Int(result.appended as int))
            &&& document.member("retired"@) == Some(JsonView::Int(result.retired as int))
            &&& document.member("changed"@) == Some(JsonView::Bool(result.appended != 0))
            &&& document.member("present"@) == Some(JsonView::Int(refresh::tally(levels, 0) as int))
            &&& document.member("absent"@) == Some(JsonView::Int(refresh::tally(levels, 1) as int))
            &&& document.member("unknown"@) == Some(JsonView::Int(refresh::tally(levels, 2) as int))
        }),
        ({
            let document = refresh::refresh_output(result).json;
            &&& document.member("changed"@) == Some(JsonView::Bool(result.appended != 0))
            &&& document.member("head"@) == Some(JsonView::Int(result.head@.seq as int))
            &&& document_laws::says_text(document, "revision"@, result.head@.revision)
            &&& document.member("result"@) == Some(refresh::refresh_json(result))
        }),
{
    refresh_counts(result);
    let members = refresh::refresh_output(result).json->Object_0;
    reveal_strlit("changed");
    assert("changed"@.len() == 7);
    reveal_strlit("head");
    assert("head"@.len() == 4);
    reveal_strlit("result");
    assert("result"@.len() == 6);
    reveal_strlit("revision");
    assert("revision"@.len() == 8);
    document_laws::found_first(members, 0, "changed"@);
    document_laws::found_first(members, 1, "head"@);
    document_laws::found_first(members, 2, "result"@);
    document_laws::found_first(members, 3, "revision"@);
}

proof fn refresh_counts(result: RefreshApplication)
    ensures
        ({
            let document = refresh::refresh_json(result);
            let levels = refresh::all_levels(result.runs@);
            &&& document.member("appended"@) == Some(JsonView::Int(result.appended as int))
            &&& document.member("retired"@) == Some(JsonView::Int(result.retired as int))
            &&& document.member("changed"@) == Some(JsonView::Bool(result.appended != 0))
            &&& document.member("present"@) == Some(JsonView::Int(refresh::tally(levels, 0) as int))
            &&& document.member("absent"@) == Some(JsonView::Int(refresh::tally(levels, 1) as int))
            &&& document.member("unknown"@) == Some(JsonView::Int(refresh::tally(levels, 2) as int))
        }),
{
    let members = refresh::refresh_json(result)->Object_0;
    reveal_strlit("absent");
    assert("absent"@.len() == 6);
    reveal_strlit("appended");
    assert("appended"@.len() == 8);
    reveal_strlit("changed");
    assert("changed"@.len() == 7);
    reveal_strlit("present");
    assert("present"@.len() == 7);
    reveal_strlit("retired");
    assert("retired"@.len() == 7);
    reveal_strlit("runs");
    assert("runs"@.len() == 4);
    reveal_strlit("unbound");
    assert("unbound"@.len() == 7);
    reveal_strlit("unknown");
    assert("unknown"@.len() == 7);
    assert("changed"@[0] != "present"@[0]);
    assert("changed"@[0] != "retired"@[0]);
    assert("changed"@[0] != "unbound"@[0]);
    assert("changed"@[0] != "unknown"@[0]);
    assert("present"@[0] != "retired"@[0]);
    assert("present"@[0] != "unbound"@[0]);
    assert("present"@[0] != "unknown"@[0]);
    assert("retired"@[0] != "unbound"@[0]);
    assert("retired"@[0] != "unknown"@[0]);
    assert("unbound"@[2] != "unknown"@[2]);
    document_laws::found_first(members, 0, "absent"@);
    document_laws::found_first(members, 1, "appended"@);
    document_laws::found_first(members, 2, "changed"@);
    document_laws::found_first(members, 3, "present"@);
    document_laws::found_first(members, 4, "retired"@);
    document_laws::found_first(members, 5, "runs"@);
    document_laws::found_first(members, 6, "unbound"@);
    document_laws::found_first(members, 7, "unknown"@);
}

// ---- looking into the log ----

/// An event is shown by its place, the first that has it; where none has it, none is.
pub proof fn events_are_found_by_their_place(events: Seq<EventView>, seq: u64)
    ensures
        debug::event_at(events, seq) is Some ==> exists|i: int|
            0 <= i < events.len() && #[trigger] events[i] == debug::event_at(events, seq)->0
                && events[i].seq == seq && forall|j: int|
                0 <= j < i ==> (#[trigger] events[j]).seq != seq,
        debug::event_at(events, seq) is None ==> forall|j: int|
            0 <= j < events.len() ==> (#[trigger] events[j]).seq != seq,
    decreases events.len(),
{
    if events.len() > 0 {
        let front = events.drop_last();
        events_are_found_by_their_place(front, seq);
        assert forall|j: int| 0 <= j < front.len() implies #[trigger] events[j] == front[j] by {}
        if debug::event_at(front, seq) is Some {
            let i = choose|i: int|
                0 <= i < front.len() && #[trigger] front[i] == debug::event_at(front, seq)->0
                    && front[i].seq == seq && forall|j: int|
                    0 <= j < i ==> (#[trigger] front[j]).seq != seq;
            assert(events[i] == debug::event_at(events, seq)->0);
        } else if events.last().seq == seq {
            assert(events[events.len() - 1] == debug::event_at(events, seq)->0);
        }
    }
}

/// The tail of the log is its last events, ten at the most, the last of which is the one at
/// its end.
pub proof fn tails_end_the_log(snapshot: SnapshotView)
    ensures
        ({
            let output = debug::debug_log_output(snapshot, DebugLogCommand::Tail);
            let n = if snapshot.events.len() < 10 {
                snapshot.events.len() as int
            } else {
                10
            };
            &&& output is Ok
            &&& document_laws::says_each(
                output->Ok_0.json,
                "events"@,
                Seq::new(n as nat, |i: int| snapshot.events[snapshot.events.len() - n + i]),
                |told: JsonView, event: EventView| document_laws::says_summary(told, event),
            )
        }),
{
    let members = debug::debug_log_output(snapshot, DebugLogCommand::Tail)->Ok_0.json->Object_0;
    reveal_strlit("operation");
    assert("operation"@.len() == 9);
    reveal_strlit("schema");
    assert("schema"@.len() == 6);
    reveal_strlit("events");
    assert("events"@.len() == 6);
    assert("schema"@[0] != "events"@[0]);
    document_laws::found_first(members, 0, "operation"@);
    document_laws::found_first(members, 1, "schema"@);
    document_laws::found_first(members, 2, "events"@);
    status_laws::recent_ones_end_the_list(snapshot.events);
    assert forall|event: EventView| document_laws::says_summary(
        #[trigger] documents::summary(event),
        event,
    ) by {
        document_laws::summaries_tell_the_events(event);
    }
}

/// An observer is found by its name, the first that has it; where none has it, none is.
pub proof fn observers_are_found_by_their_name(observers: Seq<ObserverView>, name: Seq<char>)
    ensures
        debug::observer_named(observers, name) is Some ==> exists|i: int|
            0 <= i < observers.len() && #[trigger] observers[i] == debug::observer_named(
                observers,
                name,
            )->0 && observers[i].observer == name,
        debug::observer_named(observers, name) is None ==> forall|j: int|
            0 <= j < observers.len() ==> (#[trigger] observers[j]).observer != name,
    decreases observers.len(),
{
    if observers.len() > 0 {
        let front = observers.drop_last();
        observers_are_found_by_their_name(front, name);
        assert forall|j: int| 0 <= j < front.len() implies #[trigger] observers[j] == front[j] by {}
        if debug::observer_named(front, name) is Some {
            let i = choose|i: int|
                0 <= i < front.len() && #[trigger] front[i] == debug::observer_named(
                    front,
                    name,
                )->0 && front[i].observer == name;
            assert(observers[i] == debug::observer_named(observers, name)->0);
        } else if observers.last().observer == name {
            assert(observers[observers.len() - 1] == debug::observer_named(observers, name)->0);
        }
    }
}

/// Known are the observers that are configured and those that have reported something.
pub proof fn known_observers_are_configured_or_have_reported(
    observers: Seq<ObserverView>,
    observations: Seq<ObservationView>,
    name: Seq<char>,
)
    ensures
        debug::kinds(observers, observations).contains(name) <==> (exists|o: ObserverView| #[trigger]
            observers.contains(o) && o.observer == name) || (exists|o: ObservationView| #[trigger]
            observations.contains(o) && o.key.observer == name),
{
    let a = debug::configured(observers);
    let b = debug::referenced(observations);
    let set = (a + b).to_set();
    let kinds = debug::kinds(observers, observations);
    catalog::listing_exists::<String>(set);
    assert(kinds.contains(name) <==> kinds.to_set().contains(name));
    change_laws::joined_holds(a, b, name);
    if a.contains(name) {
        let i = choose|i: int| 0 <= i < a.len() && a[i] == name;
        assert(observers.contains(observers[i]));
    }
    if b.contains(name) {
        let i = choose|i: int| 0 <= i < b.len() && b[i] == name;
        assert(observations.contains(observations[i]));
    }
    if exists|o: ObserverView| #[trigger] observers.contains(o) && o.observer == name {
        let o = choose|o: ObserverView| #[trigger] observers.contains(o) && o.observer == name;
        let i = choose|i: int| 0 <= i < observers.len() && observers[i] == o;
        assert(a[i] == name);
    }
    if exists|o: ObservationView| #[trigger] observations.contains(o) && o.key.observer == name {
        let o = choose|o: ObservationView| #[trigger]
            observations.contains(o) && o.key.observer == name;
        let i = choose|i: int| 0 <= i < observations.len() && observations[i] == o;
        assert(b[i] == name);
    }
}

// ---- answers ----

/// The document of an error says that it is one, its code, its message and its context.
pub proof fn error_documents_tell_the_errors(error: ErrorView)
    ensures
        ({
            let document = error::error_json(error);
            &&& document.member("ok"@) == Some(JsonView::Bool(false))
            &&& document.member("code"@) == Some(JsonView::Text(error.code))
            &&& document.member("message"@) == Some(JsonView::Text(error.message))
            &&& document.member("context"@) == Some(error.context)
        }),
{
    let members = error::error_json(error)->Object_0;
    reveal_strlit("code");
    assert("code"@.len() == 4);
    reveal_strlit("context");
    assert("context"@.len() == 7);
    reveal_strlit("message");
    assert("message"@.len() == 7);
    reveal_strlit("ok");
    assert("ok"@.len() == 2);
    assert("context"@[0] != "message"@[0]);
    document_laws::found_first(members, 0, "code"@);
    document_laws::found_first(members, 1, "context"@);
    document_laws::found_first(members, 2, "message"@);
    document_laws::found_first(members, 3, "ok"@);
}

/// Work whose ID begins with the prefix and a hyphen belongs to the project; it is at home
/// there exactly if all of it does.
pub proof fn work_at_home_has_the_prefix(keys: Seq<Seq<char>>, prefix: Seq<char>)
    ensures
        rules::foreign_key(keys, prefix) is None <==> forall|i: int|
            0 <= i < keys.len() ==> (prefix + "-"@).is_prefix_of(#[trigger] keys[i]),
        rules::foreign_key(keys, prefix) is Some ==> keys.contains(
            rules::foreign_key(keys, prefix)->0,
        ) && !(prefix + "-"@).is_prefix_of(rules::foreign_key(keys, prefix)->0),
    decreases keys.len(),
{
    if keys.len() > 0 {
        let front = keys.drop_last();
        work_at_home_has_the_prefix(front, prefix);
        assert forall|i: int| 0 <= i < front.len() implies #[trigger] keys[i] == front[i] by {}
        assert(keys =~= front.push(keys.last()));
        if rules::foreign_key(keys, prefix) is Some {
            change_laws::pushed_holds(front, keys.last(), rules::foreign_key(keys, prefix)->0);
            let found = rules::foreign_key(keys, prefix)->0;
            let i = choose|i: int| 0 <= i < keys.len() && keys[i] == found;
            assert(!(prefix + "-"@).is_prefix_of(keys[i]));
        } else {
            assert forall|i: int| 0 <= i < keys.len() implies (prefix + "-"@).is_prefix_of(
                #[trigger] keys[i],
            ) by {
                if i < front.len() {
                    assert((prefix + "-"@).is_prefix_of(front[i]));
                }
            }
        }
    }
}

/// An edit of one item changes what its flags say and no more: the specification is cleared,
/// set or left, and the state is not touched.
pub proof fn single_edits_say_what_the_flags_say(
    args: crate::cli::WorkEditArgs,
    id: Seq<char>,
    checks: Seq<crate::work::CheckDefinitionView>,
)
    ensures
        ({
            let edit = commands::single_edit(args, id, checks);
            &&& edit.id == id
            &&& args.title is Some ==> edit.title == Some(args.title->0@)
            &&& args.title is None ==> edit.title is None
            &&& args.clear_spec ==> edit.spec == Some(None::<Seq<char>>)
            &&& !args.clear_spec && args.spec is Some ==> edit.spec == Some(Some(args.spec->0@))
            &&& !args.clear_spec && args.spec is None ==> edit.spec is None
            &&& edit.priority == args.priority
            &&& edit.add_requires == views::views(args.add_requires@)
            &&& edit.remove_requires == views::views(args.remove_requires@)
            &&& edit.add_checks == checks
            &&& edit.remove_checks == views::views(args.remove_check@)
            &&& !edit.block && !edit.unblock
        }),
{
}

/// An attempt that is ended by hand has the outcome of that name, which is no success.
pub proof fn given_outcomes_are_no_success(outcome: NonSuccessOutcome)
    ensures
        outcome is Failed ==> outcome.meant() is Failed,
        outcome is Cancelled ==> outcome.meant() is Cancelled,
        outcome is Lost ==> outcome.meant() is Lost,
        outcome is NotStarted ==> outcome.meant() is NotStarted,
        !(outcome.meant() is Succeeded),
{
}

/// A command that was appended answers with what was appended where; one that was refused
/// answers with the refusal.
pub proof fn commands_answer_with_what_was_appended(
    result: AppendResultView,
    refusal: ErrorView,
    schema: Seq<char>,
    fields: JsonView,
    human: Seq<char>,
)
    ensures
        ({
            let answer = commands::answered(Ok(result), schema, fields, human);
            &&& answer is Ok
            &&& answer->Ok_0.human == human && answer->Ok_0.pretty is None
            &&& answer->Ok_0.json.member("schema"@) == Some(JsonView::Text(schema))
            &&& answer->Ok_0.json.member("head"@) == Some(JsonView::Int(result.head.seq as int))
            &&& answer->Ok_0.json.member("event_id"@) == Some(JsonView::Text(result.event.id))
            &&& document_laws::says_text(answer->Ok_0.json, "revision"@, result.head.revision)
        }),
        commands::answered(Err(refusal), schema, fields, human) == Err::<
            documents::OutputView,
            ErrorView,
        >(refusal),
{
    documents::the_envelope_is_the_appends(result.head, schema, result.event.id, fields);
}

/// An observation that was no news is answered with the head, and as not appended; one that
/// was is answered as appended.
pub proof fn observations_tell_whether_they_were_news(
    answer: ObservationAppendView,
    schema: Seq<char>,
    verb: Seq<char>,
    key: ObservationKeyView,
    observation: JsonView,
)
    ensures
        ({
            let document = commands::observed(answer, schema, verb, key, observation).json;
            &&& document.member("appended"@) == Some(JsonView::Bool(answer is Appended))
            &&& document.member("observation"@) == Some(observation)
            &&& answer matches ObservationAppendView::Appended(result) ==> document.member(
                "head"@,
            ) == Some(JsonView::Int(result.head.seq as int)) && document.member("event_id"@)
                == Some(JsonView::Text(result.event.id))
            &&& answer matches ObservationAppendView::Unchanged { head } ==> document.member(
                "head"@,
            ) == Some(JsonView::Int(head.seq as int))
        }),
{
    reveal_strlit("appended");
    assert("appended"@.len() == 8);
    reveal_strlit("head");
    assert("head"@.len() == 4);
    reveal_strlit("observation");
    assert("observation"@.len() == 11);
    reveal_strlit("revision");
    assert("revision"@.len() == 8);
    reveal_strlit("schema");
    assert("schema"@.len() == 6);
    reveal_strlit("event_id");
    assert("event_id"@.len() == 8);
    assert("appended"@[0] != "revision"@[0]);
    assert("appended"@[0] != "event_id"@[0]);
    assert("revision"@[0] != "event_id"@[0]);
    let members = commands::observed(answer, schema, verb, key, observation).json->Object_0;
    match answer {
        ObservationAppendView::Appended(result) => {
            let fields = json::empty_object().with("appended"@, JsonView::Bool(true)).with(
                "observation"@,
                observation,
            );
            let own = fields->Object_0;
            document_laws::found_first(own, 0, "appended"@);
            document_laws::found_first(own, 1, "observation"@);
            documents::the_envelope_is_the_appends(result.head, schema, result.event.id, fields);
            document_laws::mutations_keep_their_fields(
                result.head,
                schema,
                result.event.id,
                fields,
                "appended"@,
            );
            document_laws::mutations_keep_their_fields(
                result.head,
                schema,
                result.event.id,
                fields,
                "observation"@,
            );
        },
        ObservationAppendView::Unchanged { .. } => {
            document_laws::found_first(members, 0, "appended"@);
            document_laws::found_first(members, 1, "head"@);
            document_laws::found_first(members, 2, "observation"@);
        },
    }
}

/// The count of changes goes up by one with each that was news, and that of retirements by one
/// with each of those that takes a level back; what was no news counts nowhere.
pub proof fn changes_count_once(
    so_far: (nat, nat),
    change: ObservationChangeView,
    answer: crate::log::Observed,
)
    ensures
        ({
            let count = refresh::counted(so_far, change, answer);
            &&& count is Ok <==> answer is Ok
            &&& answer is Ok && answer->Ok_0 is Unchanged ==> count->Ok_0 == so_far
            &&& answer is Ok && answer->Ok_0 is Appended ==> count->Ok_0.0 == so_far.0 + 1
            &&& answer is Ok && answer->Ok_0 is Appended && change.level is None
                ==> count->Ok_0.1 == so_far.1 + 1
            &&& answer is Ok && answer->Ok_0 is Appended && change.level is Some
                ==> count->Ok_0.1 == so_far.1
        }),
{
}

} // verus!

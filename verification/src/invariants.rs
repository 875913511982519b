//! What holds of a log and of the state it folds to, as questions that can be
//! asked of any log.

use vstd::prelude::*;

use crate::codec;
use crate::codec::{decode_record, Record, RecordView};
use crate::error::ErrorView;
use crate::event::{Event, EventPayload, EventPayloadView, EventView, LoopEventPayload};
use crate::json::Json;
use crate::log_laws;
use crate::project::ProjectState;
use crate::rules;
use crate::views;

verus! {

/// The events that the records say, if every one says one.
pub open spec fn all_decoded(records: Seq<RecordView>) -> core::result::Result<
    Seq<EventView>,
    ErrorView,
>
    decreases records.len(),
{
    if records.len() == 0 {
        Ok(Seq::empty())
    } else {
        match all_decoded(records.drop_last()) {
            Err(error) => Err(error),
            Ok(front) => match codec::decoded(records.last()) {
                Err(error) => Err(error),
                Ok(event) => Ok(front.push(event)),
            },
        }
    }
}

proof fn all_decoded_extends(records: Seq<RecordView>, n: int)
    requires
        0 <= n <= records.len(),
        all_decoded(records.take(n)) is Err,
    ensures
        all_decoded(records) == all_decoded(records.take(n)),
    decreases records.len() - n,
{
    if n < records.len() {
        assert(records.take(n + 1).drop_last() =~= records.take(n));
        all_decoded_extends(records, n + 1);
    } else {
        assert(records.take(n) =~= records);
    }
}

/// Reads the events that the records say.
pub fn decode_records(records: &Vec<Record>) -> (outcome: crate::error::Result<Vec<Event>>)
    ensures
        crate::store::told_events(outcome) == all_decoded(views::views(records@)),
{
    let ghost all = views::views(records@);
    let mut events: Vec<Event> = Vec::new();
    let mut index: usize = 0;
    assert(all.take(0) =~= Seq::empty());
    assert(views::views(events@) =~= Seq::empty());
    while index < records.len()
        invariant
            index <= records@.len(),
            all == views::views(records@),
            all_decoded(all.take(index as int)) == Ok::<Seq<EventView>, ErrorView>(
                views::views(events@),
            ),
        decreases records@.len() - index,
    {
        assert(all.take(index + 1).drop_last() =~= all.take(index as int));
        assert(all.take(index + 1).last() == records@[index as int]@);
        match decode_record(&records[index]) {
            Err(error) => {
                proof {
                    all_decoded_extends(all, index + 1);
                }
                return Err(error);
            },
            Ok(event) => {
                let ghost before = events@;
                let ghost value = event@;
                events.push(event);
                assert(views::views(events@) =~= views::views(before).push(value));
            },
        }
        index += 1;
    }
    assert(all.take(index as int) =~= all);
    Ok(events)
}

/// Every record says an event, and the fold accepts all of them.
pub fn log_folds_cleanly(records: &Vec<Record>) -> (clean: bool)
    ensures
        clean == (match all_decoded(views::views(records@)) {
            Ok(events) => rules::folded(events) is Ok,
            Err(_) => false,
        }),
{
    match decode_records(records) {
        Ok(events) => ProjectState::fold(events.as_slice()).is_ok(),
        Err(_) => false,
    }
}

/// A record of the loop's own runs.
pub open spec fn is_pass(payload: EventPayloadView) -> bool {
    match payload {
        EventPayloadView::Loop(payload) => payload.legacy(),
        _ => false,
    }
}

/// The log tells of work, never of those who read the log.
pub fn mentions_no_readers(events: &Vec<Event>) -> (none: bool)
    ensures
        none == forall|i: int|
            0 <= i < events@.len() ==> !is_pass((#[trigger] views::views(events@)[i]).payload),
{
    let ghost all = views::views(events@);
    let mut index: usize = 0;
    while index < events.len()
        invariant
            index <= events@.len(),
            all == views::views(events@),
            forall|i: int| 0 <= i < index ==> !is_pass((#[trigger] all[i]).payload),
        decreases events@.len() - index,
    {
        assert(all[index as int] == events@[index as int]@);
        let pass = match &events[index].payload {
            EventPayload::Loop(payload) => payload.is_legacy(),
            _ => false,
        };
        if pass {
            return false;
        }
        index += 1;
    }
    true
}

/// The sequence of the last request for a rotation, read straight off the log.
pub fn latest_rotation_request(events: &Vec<Event>) -> (seq: Option<u64>)
    ensures
        seq == log_laws::latest_rotation(views::views(events@)),
{
    let ghost all = views::views(events@);
    let mut latest: Option<u64> = None;
    let mut index: usize = 0;
    assert(all.take(0) =~= Seq::empty());
    while index < events.len()
        invariant
            index <= events@.len(),
            all == views::views(events@),
            latest == log_laws::latest_rotation(all.take(index as int)),
        decreases events@.len() - index,
    {
        assert(all.take(index + 1).drop_last() =~= all.take(index as int));
        assert(all.take(index + 1).last() == events@[index as int]@);
        let asked = match &events[index].payload {
            EventPayload::Loop(LoopEventPayload::LoopRotationRequested { .. }) => true,
            EventPayload::Loop(LoopEventPayload::LegacyPassEnded(body)) => match body.get(
                "rotate",
            ) {
                Some(Json::Bool(true)) => true,
                _ => false,
            },
            _ => false,
        };
        if asked {
            latest = Some(events[index].seq);
        }
        index += 1;
    }
    assert(all.take(index as int) =~= all);
    latest
}

/// The state remembers the last request for a rotation that the log has.
pub fn rotation_request_mirrors_the_log(state: &ProjectState, events: &Vec<Event>) -> (mirrors:
    bool)
    ensures
        mirrors == (state@.loop_control.rotate_requested_seq == log_laws::latest_rotation(
            views::views(events@),
        )),
{
    let latest = latest_rotation_request(events);
    match (state.loop_control.rotate_requested_seq, latest) {
        (Some(a), Some(b)) => a == b,
        (None, None) => true,
        _ => false,
    }
}

} // verus!

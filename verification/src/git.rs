//! A log in a Git ref: one commit per event, one file per event.

use vstd::prelude::*;

use crate::catalog::{Catalog, Replica};
use crate::error;
use crate::error::{AlderError, ErrorView, Result};
use crate::event::{Event, EventDraft, EventDraftView, EventView};
use crate::json;
use crate::json::{Json, JsonView};
use crate::selection::{chosen, Test};
use crate::sorting;
use crate::sorting::sort;
use crate::store;
use crate::store::{find_event, AppendResult, AppendResultView, Head, HeadView};
use crate::text;
use crate::text::{
    begins_with, chars_of, decimal_text, is_white, joined, joined5, text_between, trim_text,
};
use crate::views;

verus! {

/// Which ref of which remote the log is in, and from where it is reached.
#[derive(Debug)]
pub struct GitStore {
    pub root: String,
    pub remote: String,
    pub reference: String,
}

impl GitStore {
    pub fn new(root: String, remote: String, reference: String) -> (store: GitStore)
        ensures
            store.root == root,
            store.remote == remote,
            store.reference == reference,
    {
        GitStore { root, remote, reference }
    }

    pub fn root(&self) -> (root: &str)
        ensures
            root@ == self.root@,
    {
        self.root.as_str()
    }
}

// ---- what Git prints ----

/// What std reads off bytes as UTF-8, with a replacement character for what is
/// none.
pub uninterp spec fn lossy_reading(bytes: Seq<u8>) -> Seq<char>;

/// `std::string::String::from_utf8_lossy`. What it makes of the bytes depends on
/// them alone.
#[verifier::external_body]
fn lossy_text(bytes: &[u8]) -> (text: String)
    ensures
        text@ == lossy_reading(bytes@),
{
    String::from_utf8_lossy(bytes).into_owned()
}

/// The first 4096 characters, and a mark where there are more.
pub open spec fn shortened(text: Seq<char>) -> Seq<char> {
    if text.len() > 4096 {
        text.take(4096) + "…"@
    } else {
        text
    }
}

pub fn bounded_text(text: &str) -> (short: String)
    ensures
        short@ == shortened(text@),
{
    let chars = chars_of(text);
    if chars.len() > 4096 {
        assert(text@.take(4096) =~= text@.subrange(0, 4096));
        text_between(&chars, 0, 4096).concat("…")
    } else {
        text.to_owned()
    }
}

/// What a process has printed, as far as an error tells it.
pub fn bounded(bytes: &[u8]) -> (short: String)
    ensures
        short@ == shortened(lossy_reading(bytes@)),
{
    bounded_text(lossy_text(bytes).as_str())
}

pub open spec fn int_or_null(value: Option<i32>) -> JsonView {
    match value {
        Some(n) => JsonView::Int(n as int),
        None => JsonView::Null,
    }
}

/// Git could not do what it was asked to.
pub open spec fn git_failure(
    store: GitStore,
    operation: Seq<char>,
    status: Option<i32>,
    stderr: Seq<char>,
) -> ErrorView {
    error::context_error(
        "store_unavailable"@,
        "Git could not "@ + operation,
        json::empty_object().with("ref"@, JsonView::Text(store.reference@)).with(
            "remote"@,
            JsonView::Text(store.remote@),
        ).with("status"@, int_or_null(status)).with("stderr"@, JsonView::Text(stderr)),
    )
}

impl GitStore {
    pub fn git_error(&self, operation: &str, status: Option<i32>, stderr: &[u8]) -> (error:
        AlderError)
        ensures
            error@ == git_failure(
                *self,
                operation@,
                status,
                shortened(lossy_reading(stderr@)),
            ),
    {
        let code = match status {
            Some(n) => Json::Int(n as i128),
            None => Json::Null,
        };
        AlderError::with_context(
            "store_unavailable",
            joined("Git could not ", operation),
            Json::object().with("ref", Json::text(self.reference.as_str())).with(
                "remote",
                Json::text(self.remote.as_str()),
            ).with("status", code).with("stderr", Json::Text(bounded(stderr))),
        )
    }

    /// Git could not be run at all.
    pub fn spawn_error(&self, why: &str) -> (error: AlderError)
        ensures
            error@ == error::context_error(
                "store_unavailable"@,
                "failed to execute Git: "@ + why@,
                json::empty_object().with("ref"@, JsonView::Text(self.reference@)).with(
                    "remote"@,
                    JsonView::Text(self.remote@),
                ),
            ),
    {
        AlderError::with_context(
            "store_unavailable",
            joined("failed to execute Git: ", why),
            Json::object().with("ref", Json::text(self.reference.as_str())).with(
                "remote",
                Json::text(self.remote.as_str()),
            ),
        )
    }
}

/// The line without the carriage return at its end.
pub open spec fn without_return(line: Seq<char>) -> Seq<char> {
    if line.len() > 0 && line.last() == '\r' {
        line.drop_last()
    } else {
        line
    }
}

/// The lines of a text, without their endings.
pub open spec fn lines_in(text: Seq<char>) -> Seq<Seq<char>>
    decreases text.len(),
{
    proof {
        text::cut_parts(text, '\n');
    }
    if text.len() == 0 {
        Seq::empty()
    } else {
        match text::cut(text, '\n') {
            None => seq![text],
            Some((line, rest)) => seq![without_return(line)] + lines_in(rest),
        }
    }
}

fn line_between(chars: &Vec<char>, start: usize, end: usize) -> (line: String)
    requires
        start <= end <= chars@.len(),
    ensures
        line@ == without_return(chars@.subrange(start as int, end as int)),
{
    if start < end && chars[end - 1] == '\r' {
        assert(chars@.subrange(start as int, end as int).drop_last() =~= chars@.subrange(
            start as int,
            end - 1,
        ));
        text_between(chars, start, end - 1)
    } else {
        text_between(chars, start, end)
    }
}

pub fn text_lines(text: &str) -> (lines: Vec<String>)
    ensures
        views::views(lines@) == lines_in(text@),
{
    let chars = chars_of(text);
    let mut lines: Vec<String> = Vec::new();
    let mut start: usize = 0;
    assert(chars@.skip(0) =~= chars@);
    assert(views::views(lines@) + lines_in(text@) =~= lines_in(text@));
    while start < chars.len()
        invariant
            start <= chars@.len(),
            chars@ == text@,
            views::views(lines@) + lines_in(chars@.skip(start as int)) == lines_in(text@),
        decreases chars@.len() - start,
    {
        let ghost rest = chars@.skip(start as int);
        let ghost before = views::views(lines@);
        let mut end: usize = start;
        while end < chars.len() && chars[end] != '\n'
            invariant
                start <= end <= chars@.len(),
                rest == chars@.skip(start as int),
                forall|i: int| 0 <= i < end - start ==> #[trigger] rest[i] != '\n',
            ensures
                end < chars@.len() ==> chars@[end as int] == '\n',
            decreases chars@.len() - end,
        {
            assert(rest[end - start] == chars@[end as int]);
            end += 1;
        }
        if end < chars.len() {
            proof {
                assert(rest[end - start] == '\n');
                text::cut_at(rest, '\n', end - start);
                assert(rest.take(end - start) =~= chars@.subrange(start as int, end as int));
                assert(rest.skip(end - start + 1) =~= chars@.skip(end + 1));
            }
            lines.push(line_between(&chars, start, end));
            start = end + 1;
            assert(views::views(lines@) =~= before.push(lines@.last()@));
            assert(views::views(lines@) + lines_in(chars@.skip(start as int)) =~= before + (seq![
                lines@.last()@,
            ] + lines_in(chars@.skip(start as int))));
        } else {
            proof {
                assert(!rest.contains('\n'));
                assert(rest =~= chars@.subrange(start as int, end as int));
            }
            lines.push(text_between(&chars, start, end));
            start = end;
            assert(views::views(lines@) =~= before + seq![rest]);
            assert(chars@.skip(start as int) =~= Seq::<char>::empty());
            assert(views::views(lines@) + Seq::<Seq<char>>::empty() =~= views::views(lines@));
        }
    }
    assert(chars@.skip(start as int) =~= Seq::<char>::empty());
    assert(views::views(lines@) + Seq::<Seq<char>>::empty() =~= views::views(lines@));
    lines
}

/// Where the first word of a text stands: white space before it, none in it, and
/// white space or the end behind it.
pub open spec fn word_at(text: Seq<char>, start: int, end: int) -> bool {
    &&& 0 <= start < end <= text.len()
    &&& forall|i: int| 0 <= i < start ==> text::white(#[trigger] text[i])
    &&& forall|i: int| start <= i < end ==> !text::white(#[trigger] text[i])
    &&& end < text.len() ==> text::white(text[end])
}

pub open spec fn first_word(text: Seq<char>) -> Option<Seq<char>> {
    if text::blank(text) {
        None
    } else {
        let (start, end) = choose|start: int, end: int| word_at(text, start, end);
        Some(text.subrange(start, end))
    }
}

fn word_of(text: &str) -> (word: Option<String>)
    ensures
        views::opt_view(word) == first_word(text@),
{
    let chars = chars_of(text);
    let mut start: usize = 0;
    while start < chars.len() && is_white(chars[start])
        invariant
            start <= chars@.len(),
            chars@ == text@,
            forall|i: int| 0 <= i < start ==> text::white(#[trigger] text@[i]),
        ensures
            start < chars@.len() ==> !text::white(text@[start as int]),
        decreases chars@.len() - start,
    {
        start += 1;
    }
    if start == chars.len() {
        return None;
    }
    let mut end: usize = start;
    while end < chars.len() && !is_white(chars[end])
        invariant
            start <= end <= chars@.len(),
            chars@ == text@,
            forall|i: int| start <= i < end ==> !text::white(#[trigger] text@[i]),
        ensures
            end < chars@.len() ==> text::white(text@[end as int]),
        decreases chars@.len() - end,
    {
        end += 1;
    }
    proof {
        assert(!text::white(text@[start as int]));
        assert(word_at(text@, start as int, end as int));
        let (s, e) = choose|s: int, e: int| word_at(text@, s, e);
        assert(word_at(text@, s, e));
        if s < start {
            assert(text::white(text@[s]));
        } else if start < s {
            assert(text::white(text@[start as int]));
        }
        if e < end {
            assert(!text::white(text@[e]));
        } else if end < e {
            assert(!text::white(text@[end as int]));
        }
    }
    Some(text_between(&chars, start, end))
}

/// The revision in a listing of remote refs: the first word of its first line.
pub open spec fn listed_revision(stdout: Seq<char>) -> Option<Seq<char>> {
    if lines_in(stdout).len() == 0 {
        None
    } else {
        first_word(lines_in(stdout)[0])
    }
}

pub fn revision_in(stdout: &str) -> (revision: Option<String>)
    ensures
        views::opt_view(revision) == listed_revision(stdout@),
{
    let lines = text_lines(stdout);
    assert(views::views(lines@).len() == lines@.len());
    if lines.len() == 0 {
        None
    } else {
        assert(views::views(lines@)[0] == lines@[0]@);
        word_of(lines[0].as_str())
    }
}

impl GitStore {
    /// The revision that the remote has for the ref, given how listing it went:
    /// whether Git succeeded, with which status, and what it printed.
    pub fn remote_revision(
        &self,
        success: bool,
        status: Option<i32>,
        stdout: &[u8],
        stderr: &[u8],
    ) -> (outcome: Result<Option<String>>)
        ensures
            match outcome {
                Ok(revision) => success && views::opt_view(revision) == listed_revision(
                    lossy_reading(stdout@),
                ),
                Err(e) => !success && e@ == git_failure(
                    *self,
                    "read the shared log head"@,
                    status,
                    shortened(lossy_reading(stderr@)),
                ),
            },
    {
        if success {
            Ok(revision_in(lossy_text(stdout).as_str()))
        } else {
            Err(self.git_error("read the shared log head", status, stderr))
        }
    }
}

// ---- where an event is kept ----

/// A number in twenty digits.
pub open spec fn twenty_digits(n: nat) -> Seq<char> {
    let digits = text::decimal(n);
    if digits.len() < 20 {
        Seq::new((20 - digits.len()) as nat, |i: int| '0') + digits
    } else {
        digits
    }
}

fn numbered(n: u64) -> (digits: String)
    ensures
        digits@ == twenty_digits(n as nat),
{
    let bare = decimal_text(n);
    let len = chars_of(bare.as_str()).len();
    let mut front = String::new();
    let mut count: usize = len;
    assert(front@ =~= Seq::new(0, |i: int| '0'));
    while count < 20
        invariant
            len <= count,
            count <= 20 || count == len,
            front@ == Seq::new((count - len) as nat, |i: int| '0'),
        decreases 20 - count,
    {
        front.push('0');
        count += 1;
        assert(front@ =~= Seq::new((count - len) as nat, |i: int| '0'));
    }
    proof {
        if len >= 20 {
            assert(front@ + bare@ =~= bare@);
        }
    }
    front.concat(bare.as_str())
}

/// The file of an event: its place, so that the files sort as the events stand,
/// and its ID.
pub open spec fn event_file(event: EventView) -> Seq<char> {
    "events/"@ + twenty_digits(event.seq as nat) + "-"@ + event.id + ".json"@
}

pub fn event_path(event: &Event) -> (path: String)
    ensures
        path@ == event_file(event@),
{
    joined5("events/", numbered(event.seq).as_str(), "-", event.id.as_str(), ".json")
}

pub open spec fn commit_text(event: EventView) -> Seq<char> {
    "alder: "@ + event.payload.event_type() + " #"@ + text::decimal(event.seq as nat) + " "@
        + event.id + "\n"@
}

pub fn commit_message(event: &Event) -> (message: String)
    ensures
        message@ == commit_text(event@),
{
    joined5(
        "alder: ",
        event.payload.event_type(),
        " #",
        decimal_text(event.seq).as_str(),
        " ",
    ).concat(event.id.as_str()).concat("\n")
}

pub struct EventFile;

/// Whether a path is one that events are kept at.
pub open spec fn is_event_file() -> spec_fn(Seq<char>) -> bool {
    |path: Seq<char>| "events/"@.is_prefix_of(path) && ".json"@.is_suffix_of(path)
}

fn ends_with(text: &str, suffix: &str) -> (ends: bool)
    ensures
        ends == suffix@.is_suffix_of(text@),
{
    let whole = chars_of(text);
    let end = chars_of(suffix);
    if end.len() > whole.len() {
        return false;
    }
    let len: usize = whole.len();
    let start: usize = len - end.len();
    let mut index: usize = 0;
    while index < end.len()
        invariant
            index <= end@.len() <= whole@.len(),
            len == whole@.len(),
            start == len - end@.len(),
            whole@ == text@,
            end@ == suffix@,
            forall|i: int| 0 <= i < index ==> end@[i] == #[trigger] whole@[start + i],
        decreases end@.len() - index,
    {
        if end[index] != whole[start + index] {
            assert(suffix@[index as int] != text@.subrange(
                text@.len() - suffix@.len(),
                text@.len() as int,
            )[index as int]);
            return false;
        }
        index += 1;
    }
    proof {
        let tail = text@.subrange(text@.len() - suffix@.len(), text@.len() as int);
        assert forall|i: int| 0 <= i < suffix@.len() implies suffix@[i] == tail[i] by {
            assert(end@[i] == whole@[start + i]);
        }
        assert(suffix@ =~= tail);
    }
    true
}

impl Test<String> for EventFile {
    open spec fn test(&self) -> spec_fn(Seq<char>) -> bool {
        is_event_file()
    }

    fn passes(&self, item: &String) -> (passes: bool) {
        begins_with(item.as_str(), "events/") && ends_with(item.as_str(), ".json")
    }
}

/// The event files in a listing of paths, in order.
pub open spec fn event_files(listing: Seq<char>) -> Seq<Seq<char>> {
    sorting::sorted::<String>(lines_in(listing).filter(is_event_file()))
}

pub fn event_paths(listing: &str) -> (paths: Vec<String>)
    ensures
        views::views(paths@) == event_files(listing@),
{
    let lines = text_lines(listing);
    sort(chosen(&lines, &EventFile))
}

/// The event files in what Git printed of them.
pub fn listed_paths(stdout: &[u8]) -> (paths: Vec<String>)
    ensures
        views::views(paths@) == event_files(lossy_reading(stdout@)),
{
    event_paths(lossy_text(stdout).as_str())
}

/// The one word that Git printed, without the white space round it.
pub fn printed_word(stdout: &[u8]) -> (word: String)
    ensures
        word@ == text::trimmed(lossy_reading(stdout@)),
{
    trim_text(lossy_text(stdout).as_str())
}

// ---- whether what was read is a log ----

/// The complaint about the first event that is out of place or has an ID that was
/// there before.
pub open spec fn sequence_error(events: Seq<EventView>) -> Option<ErrorView>
    decreases events.len(),
{
    if events.len() == 0 {
        None
    } else {
        match sequence_error(events.drop_last()) {
            Some(error) => Some(error),
            None => {
                let last = events.last();
                if last.seq != events.len() || id_taken(events.drop_last(), last.id) {
                    Some(
                        error::context_error(
                            "invalid_log"@,
                            "the event log is not a unique contiguous sequence"@,
                            json::empty_object().with(
                                "actual_seq"@,
                                JsonView::Int(last.seq as int),
                            ).with("event_id"@, JsonView::Text(last.id)).with(
                                "expected_seq"@,
                                JsonView::Int(events.len() as int),
                            ),
                        ),
                    )
                } else {
                    None
                }
            },
        }
    }
}

pub open spec fn id_taken(events: Seq<EventView>, id: Seq<char>) -> bool {
    exists|i: int| 0 <= i < events.len() && (#[trigger] events[i]).id == id
}

proof fn sequence_error_extends(events: Seq<EventView>, n: int)
    requires
        0 <= n <= events.len(),
        sequence_error(events.take(n)) is Some,
    ensures
        sequence_error(events) == sequence_error(events.take(n)),
    decreases events.len() - n,
{
    if n == events.len() {
        assert(events.take(n) =~= events);
    } else {
        assert(events.take(n + 1).drop_last() =~= events.take(n));
        sequence_error_extends(events, n + 1);
    }
}

pub fn validate_events(events: &Vec<Event>) -> (outcome: Result<()>)
    ensures
        match sequence_error(views::views(events@)) {
            Some(error) => outcome matches Err(e) && e@ == error,
            None => outcome is Ok,
        },
{
    let ghost all = views::views(events@);
    let mut ids: Catalog<String, bool> = Catalog::new();
    let mut index: usize = 0;
    assert(all.take(0) =~= Seq::<EventView>::empty());
    while index < events.len()
        invariant
            index <= events@.len(),
            all == views::views(events@),
            sequence_error(all.take(index as int)) is None,
            forall|id: Seq<char>| #[trigger]
                ids@.contains_key(id) <==> id_taken(all.take(index as int), id),
        decreases events@.len() - index,
    {
        let event = &events[index];
        let expected: u64 = index as u64 + 1;
        proof {
            assert(all.take(index + 1).drop_last() =~= all.take(index as int));
            assert(all.take(index + 1).last() == event@);
            if sequence_error(all.take(index + 1)) is Some {
                sequence_error_extends(all, index + 1);
            }
        }
        if event.seq != expected || ids.contains_key(event.id.as_str()) {
            return Err(
                AlderError::with_context(
                    "invalid_log",
                    "the event log is not a unique contiguous sequence".to_owned(),
                    Json::object().with("actual_seq", Json::number(event.seq)).with(
                        "event_id",
                        Json::text(event.id.as_str()),
                    ).with("expected_seq", Json::number(expected)),
                ),
            );
        }
        ids.insert(event.id.clone(), true);
        proof {
            let shorter = all.take(index as int);
            let longer = all.take(index + 1);
            assert forall|id: Seq<char>| #[trigger] ids@.contains_key(id) <==> id_taken(
                longer,
                id,
            ) by {
                if id_taken(longer, id) {
                    let i = choose|i: int| 0 <= i < longer.len() && (#[trigger] longer[i]).id == id;
                    if i < shorter.len() {
                        assert(shorter[i].id == id);
                    }
                }
                if id_taken(shorter, id) {
                    let i = choose|i: int|
                        0 <= i < shorter.len() && (#[trigger] shorter[i]).id == id;
                    assert(longer[i].id == id);
                }
                assert(longer[index as int].id == event@.id);
            }
        }
        index += 1;
    }
    assert(all.take(index as int) =~= all);
    Ok(())
}

/// A valid log is numbered from one on, and no two of its events have one ID.
pub proof fn valid_logs_are_numbered(events: Seq<EventView>)
    ensures
        sequence_error(events) is None <==> {
            &&& forall|i: int| 0 <= i < events.len() ==> (#[trigger] events[i]).seq == i + 1
            &&& forall|i: int, j: int|
                0 <= i < j < events.len() ==> (#[trigger] events[i]).id != (
                #[trigger] events[j]).id
        },
    decreases events.len(),
{
    if events.len() > 0 {
        let front = events.drop_last();
        valid_logs_are_numbered(front);
        if sequence_error(events) is None {
            assert forall|i: int| 0 <= i < events.len() implies (#[trigger] events[i]).seq == i
                + 1 by {
                if i < front.len() {
                    assert(front[i] == events[i]);
                }
            }
            assert forall|i: int, j: int| 0 <= i < j < events.len() implies (
            #[trigger] events[i]).id != (#[trigger] events[j]).id by {
                assert(front[i] == events[i]);
                if j < front.len() {
                    assert(front[j] == events[j]);
                }
            }
        } else {
            if sequence_error(front) is None {
                if events.last().seq == events.len() {
                    let i = choose|i: int|
                        0 <= i < front.len() && (#[trigger] front[i]).id == events.last().id;
                    assert(events[i].id == events[events.len() - 1].id);
                } else {
                    assert(events[events.len() - 1].seq != events.len());
                }
            } else {
                if forall|i: int| 0 <= i < front.len() ==> (#[trigger] front[i]).seq == i + 1 {
                    let (i, j) = choose|i: int, j: int|
                        0 <= i < j < front.len() && (#[trigger] front[i]).id == (
                        #[trigger] front[j]).id;
                    assert(events[i].id == events[j].id);
                } else {
                    let i = choose|i: int|
                        0 <= i < front.len() && (#[trigger] front[i]).seq != i + 1;
                    assert(events[i].seq != i + 1);
                }
            }
        }
    }
}

/// The events at a head, given those of its revision.
pub open spec fn events_at(head: HeadView, read: Seq<EventView>) -> core::result::Result<
    Seq<EventView>,
    ErrorView,
> {
    if head.revision is Some {
        if read.len() != head.seq {
            Err(
                error::context_error(
                    "invalid_head"@,
                    "the head sequence does not match its Git revision"@,
                    json::empty_object().with("events"@, JsonView::Int(read.len() as int)).with(
                        "head"@,
                        store::head_json(head),
                    ),
                ),
            )
        } else {
            Ok(read)
        }
    } else if head.seq == 0 {
        Ok(Seq::empty())
    } else {
        Err(
            error::context_error(
                "invalid_head"@,
                "an empty Git head must have sequence zero"@,
                json::empty_object().with("head"@, store::head_json(head)),
            ),
        )
    }
}

/// Holds a head against the events that its revision has; a head without a
/// revision has none.
pub fn check_head(head: &Head, read: Vec<Event>) -> (outcome: Result<Vec<Event>>)
    ensures
        store::told_events(outcome) == events_at(head@, views::views(read@)),
{
    assert(views::views(read@).len() == read@.len());
    if head.revision.is_some() {
        if read.len() as u64 != head.seq {
            Err(
                AlderError::with_context(
                    "invalid_head",
                    "the head sequence does not match its Git revision".to_owned(),
                    Json::object().with("events", Json::number(read.len() as u64)).with(
                        "head",
                        head.to_json(),
                    ),
                ),
            )
        } else {
            Ok(read)
        }
    } else if head.seq == 0 {
        let none: Vec<Event> = Vec::new();
        assert(views::views(none@) =~= Seq::<EventView>::empty());
        Ok(none)
    } else {
        Err(
            AlderError::with_context(
                "invalid_head",
                "an empty Git head must have sequence zero".to_owned(),
                Json::object().with("head", head.to_json()),
            ),
        )
    }
}

// ---- appending ----

/// What to do about an append: it is settled, or the event is to be pushed.
#[derive(Debug)]
pub enum AppendStep {
    Settled(AppendResult),
    Push(Event),
}

#[verifier::ext_equal]
pub enum AppendStepView {
    Settled(AppendResultView),
    Push(EventView),
}

impl View for AppendStep {
    type V = AppendStepView;

    open spec fn view(&self) -> AppendStepView {
        match self {
            AppendStep::Settled(result) => AppendStepView::Settled(result@),
            AppendStep::Push(event) => AppendStepView::Push(event@),
        }
    }
}

/// Before the push: a draft that is there already is settled; a log that stands
/// elsewhere is a conflict; else the draft goes behind the expected head.
pub open spec fn before_push(
    expected: HeadView,
    draft: EventDraftView,
    current: HeadView,
    events: Seq<EventView>,
) -> core::result::Result<AppendStepView, ErrorView> {
    match store::event_with_id(events, draft.id) {
        Some(event) => Ok(
            AppendStepView::Settled(AppendResultView { head: current, event }),
        ),
        None => if current != expected {
            Err(store::conflict_error(expected, current))
        } else {
            Ok(AppendStepView::Push(draft.at_seq((expected.seq + 1) as u64)))
        },
    }
}

pub fn plan_append(
    expected: &Head,
    draft: &EventDraft,
    current: Head,
    events: &Vec<Event>,
) -> (outcome: Result<AppendStep>)
    requires
        expected@.seq < u64::MAX,
    ensures
        store::told(outcome) == before_push(expected@, draft@, current@, views::views(events@)),
{
    if let Some(event) = find_event(events, draft.id.as_str()) {
        return Ok(AppendStep::Settled(AppendResult { head: current, event: event.replica() }));
    }
    if !current.is_same(expected) {
        return Err(store::head_conflict(expected, &current));
    }
    Ok(AppendStep::Push(draft.materialize(expected.seq + 1)))
}

/// After a push that went through: the event stands in the commit.
pub fn pushed(commit: String, event: Event) -> (result: AppendResult)
    ensures
        result@ == (AppendResultView {
            head: HeadView { revision: Some(commit@), seq: event@.seq },
            event: event@,
        }),
{
    let seq = event.seq;
    AppendResult { head: Head { revision: Some(commit), seq }, event }
}

/// After a push that did not: the draft may have got there all the same, another
/// writer may have, or nobody can tell.
pub open spec fn after_failed_push(
    expected: HeadView,
    draft: EventDraftView,
    after: HeadView,
    events: Seq<EventView>,
    stderr: Seq<char>,
) -> core::result::Result<AppendResultView, ErrorView> {
    match store::event_with_id(events, draft.id) {
        Some(event) => Ok(AppendResultView { head: after, event }),
        None => if after != expected {
            Err(
                error::context_error(
                    "head_conflict"@,
                    "another writer advanced the shared log"@,
                    json::empty_object().with("current_head"@, store::head_json(after)).with(
                        "event_id"@,
                        JsonView::Text(draft.id),
                    ).with("expected_head"@, store::head_json(expected)),
                ),
            )
        } else {
            Err(
                error::context_error(
                    "unknown_append_outcome"@,
                    "the event was not found after an inconclusive push"@,
                    json::empty_object().with("current_head"@, store::head_json(after)).with(
                        "event_id"@,
                        JsonView::Text(draft.id),
                    ).with("expected_head"@, store::head_json(expected)).with(
                        "stderr"@,
                        JsonView::Text(stderr),
                    ),
                ),
            )
        },
    }
}

pub fn settle_append(
    expected: &Head,
    draft: &EventDraft,
    after: Head,
    events: &Vec<Event>,
    stderr: &[u8],
) -> (outcome: Result<AppendResult>)
    ensures
        store::told(outcome) == after_failed_push(
            expected@,
            draft@,
            after@,
            views::views(events@),
            shortened(lossy_reading(stderr@)),
        ),
{
    if let Some(event) = find_event(events, draft.id.as_str()) {
        return Ok(AppendResult { head: after, event: event.replica() });
    }
    if !after.is_same(expected) {
        return Err(
            AlderError::with_context(
                "head_conflict",
                "another writer advanced the shared log".to_owned(),
                Json::object().with("current_head", after.to_json()).with(
                    "event_id",
                    Json::text(draft.id.as_str()),
                ).with("expected_head", expected.to_json()),
            ),
        );
    }
    Err(
        AlderError::with_context(
            "unknown_append_outcome",
            "the event was not found after an inconclusive push".to_owned(),
            Json::object().with("current_head", after.to_json()).with(
                "event_id",
                Json::text(draft.id.as_str()),
            ).with("expected_head", expected.to_json()).with(
                "stderr",
                Json::Text(bounded(stderr)),
            ),
        ),
    )
}

/// An event that is pushed behind a valid log keeps the log valid, and the log is
/// longer by that event.
pub proof fn pushes_keep_the_log_valid(
    expected: HeadView,
    draft: EventDraftView,
    current: HeadView,
    events: Seq<EventView>,
    event: EventView,
)
    requires
        sequence_error(events) is None,
        current.seq == events.len(),
        expected.seq < u64::MAX,
        before_push(expected, draft, current, events) == Ok::<AppendStepView, ErrorView>(
            AppendStepView::Push(event),
        ),
    ensures
        sequence_error(events.push(event)) is None,
        event.id == draft.id,
        event.seq == events.len() + 1,
{
    let longer = events.push(event);
    assert(longer.drop_last() =~= events);
    absent_ids_are_free(events, draft.id);
}

/// What was pushed is read back under the head that the push told, behind all that was
/// there; and giving the draft again appends nothing and tells the same event.
pub proof fn pushed_events_are_read_back_and_pushed_once(
    expected: HeadView,
    draft: EventDraftView,
    current: HeadView,
    events: Seq<EventView>,
    event: EventView,
    commit: Seq<char>,
    again: HeadView,
)
    requires
        current.seq == events.len(),
        expected.seq < u64::MAX,
        before_push(expected, draft, current, events) == Ok::<AppendStepView, ErrorView>(
            AppendStepView::Push(event),
        ),
    ensures
        ({
            let told = HeadView { revision: Some(commit), seq: event.seq };
            let longer = events.push(event);
            &&& events_at(told, longer) == Ok::<Seq<EventView>, ErrorView>(longer)
            &&& before_push(again, draft, told, longer) == Ok::<AppendStepView, ErrorView>(
                AppendStepView::Settled(AppendResultView { head: told, event }),
            )
        }),
{
    assert(events.push(event).drop_last() =~= events);
}

proof fn absent_ids_are_free(events: Seq<EventView>, id: Seq<char>)
    requires
        store::event_with_id(events, id) is None,
    ensures
        !id_taken(events, id),
    decreases events.len(),
{
    if events.len() > 0 {
        absent_ids_are_free(events.drop_last(), id);
        if id_taken(events, id) {
            let i = choose|i: int| 0 <= i < events.len() && (#[trigger] events[i]).id == id;
            if i < events.len() - 1 {
                assert(events.drop_last()[i].id == id);
            }
        }
    }
}

} // verus!
